//! The GGUF container: header, key-value metadata and tensor descriptors,
//! decoded from the file's bytes in file order.

use vstd::prelude::*;
use vstd::assert_seqs_equal;
use vstd::string::StringSliceAdditionalSpecFns;
use vstd::utf8::encode_utf8;
use crate::gguf::keyvalue::{spec_int, GgufValue, KeyValue, Value, ValueView};
use crate::gguf::tensor::{TensorInfo, TensorType};
use crate::gguf::reader::{
    le_u16, le_u32, le_u64, read_i16_le, read_i32_le, read_i64_le, read_u16_le, read_u32_le,
    read_u64_le, take_at, BufferedReader,
};
use crate::gguf::{unexpected_eof, GgufError};
use crate::text::{byte_strings, lossy_string, starts_with_bytes, decode_lossy};
use crate::gguf::tensor::{dims_fit, dims_product, spec_num_bytes};

verus! {

/// Why decoding stopped.
pub enum ParseFailure {
    /// The bytes ran out in the middle of a field.
    Eof,
    /// The first four bytes were not `GGUF`.
    BadMagic(Seq<u8>),
    /// The version was below 2.
    UnsupportedVersion(u32),
    /// A value or array element type tag was not recognized.
    UnsupportedType(u32),
}

/// The error `e` reports the failure `f`.
pub open spec fn reports(e: GgufError, f: ParseFailure) -> bool {
    match f {
        ParseFailure::Eof => e is Io,
        ParseFailure::BadMagic(m) => e matches GgufError::BadMagic(v) && v@ == m,
        ParseFailure::UnsupportedVersion(x) => e matches GgufError::UnsupportedVersion(y) && x == y,
        ParseFailure::UnsupportedType(x) => e matches GgufError::UnsupportedType(y) && x == y,
    }
}

/// Outcome of decoding a `T` at some position: the value and the position
/// after it, or the failure.
pub type Decoded<T> = Result<(T, int), ParseFailure>;

/// `n` bytes at `pos`.
pub open spec fn p_bytes(b: Seq<u8>, pos: int, n: int) -> Decoded<Seq<u8>> {
    match take_at(b, pos, n) {
        Some((s, p)) => Ok((s, p)),
        None => Err(ParseFailure::Eof),
    }
}

/// A little-endian `u32` at `pos`.
pub open spec fn p_u32(b: Seq<u8>, pos: int) -> Decoded<u32> {
    match take_at(b, pos, 4) {
        Some((s, p)) => Ok((le_u32(s), p)),
        None => Err(ParseFailure::Eof),
    }
}

/// A little-endian `u64` at `pos`.
pub open spec fn p_u64(b: Seq<u8>, pos: int) -> Decoded<u64> {
    match take_at(b, pos, 8) {
        Some((s, p)) => Ok((le_u64(s), p)),
        None => Err(ParseFailure::Eof),
    }
}

/// A length-prefixed string at `pos`: a `u64` byte count, then the raw bytes.
pub open spec fn p_string(b: Seq<u8>, pos: int) -> Decoded<Seq<u8>> {
    match p_u64(b, pos) {
        Ok((n, p)) => p_bytes(b, p, n as int),
        Err(f) => Err(f),
    }
}

/// `n` consecutive fixed-width items of `w` bytes at `pos`, each decoded by `f`.
pub open spec fn p_fixed<T>(b: Seq<u8>, pos: int, n: int, w: int, f: spec_fn(Seq<u8>) -> T) -> Decoded<Seq<T>> {
    if 0 <= pos && pos + n * w <= b.len() {
        Ok((Seq::new(n as nat, |i: int| f(b.subrange(pos + i * w, pos + i * w + w))), pos + n * w))
    } else {
        Err(ParseFailure::Eof)
    }
}

/// `n` consecutive length-prefixed strings at `pos`.
pub open spec fn p_strings(b: Seq<u8>, pos: int, n: nat) -> Decoded<Seq<Seq<u8>>>
    decreases n,
{
    if n == 0 {
        Ok((Seq::empty(), pos))
    } else {
        match p_strings(b, pos, (n - 1) as nat) {
            Ok((xs, p)) => match p_string(b, p) {
                Ok((x, q)) => Ok((xs.push(x), q)),
                Err(f) => Err(f),
            },
            Err(f) => Err(f),
        }
    }
}

/// Decoders of single fixed-width items.
pub open spec fn d_u8(s: Seq<u8>) -> u8 { s[0] }
pub open spec fn d_i8(s: Seq<u8>) -> i8 { s[0] as i8 }
pub open spec fn d_u16(s: Seq<u8>) -> u16 { le_u16(s) }
pub open spec fn d_i16(s: Seq<u8>) -> i16 { le_u16(s) as i16 }
pub open spec fn d_u32(s: Seq<u8>) -> u32 { le_u32(s) }
pub open spec fn d_i32(s: Seq<u8>) -> i32 { le_u32(s) as i32 }
pub open spec fn d_u64(s: Seq<u8>) -> u64 { le_u64(s) }
pub open spec fn d_i64(s: Seq<u8>) -> i64 { le_u64(s) as i64 }
pub open spec fn d_bool(s: Seq<u8>) -> bool { s[0] != 0 }

/// One fixed-width scalar of value type `t` (a type with a known width).
pub open spec fn scalar_of(t: u32, s: Seq<u8>) -> ValueView {
    if t == 0 { ValueView::U8(d_u8(s)) }
    else if t == 1 { ValueView::I8(d_i8(s)) }
    else if t == 2 { ValueView::U16(d_u16(s)) }
    else if t == 3 { ValueView::I16(d_i16(s)) }
    else if t == 4 { ValueView::U32(d_u32(s)) }
    else if t == 5 { ValueView::I32(d_i32(s)) }
    else if t == 6 { ValueView::F32(d_u32(s)) }
    else if t == 7 { ValueView::Bool(d_bool(s)) }
    else if t == 10 { ValueView::U64(d_u64(s)) }
    else if t == 11 { ValueView::I64(d_i64(s)) }
    else { ValueView::F64(d_u64(s)) }
}

/// Byte width of the fixed-width value types (0 for the others).
pub open spec fn width_of(t: u32) -> int {
    if t == 0 || t == 1 || t == 7 { 1 }
    else if t == 2 || t == 3 { 2 }
    else if t == 4 || t == 5 || t == 6 { 4 }
    else if t == 10 || t == 11 || t == 12 { 8 }
    else { 0 }
}

/// An array payload with element type `t` and `n` elements at `pos`.
pub open spec fn p_array_items(b: Seq<u8>, pos: int, t: u32, n: u64) -> Decoded<ValueView> {
    let n = n as int;
    if t == 0 {
        match p_fixed(b, pos, n, 1, |s: Seq<u8>| d_u8(s)) { Ok((v, p)) => Ok((ValueView::ArrayU8(v), p)), Err(f) => Err(f) }
    } else if t == 1 {
        match p_fixed(b, pos, n, 1, |s: Seq<u8>| d_i8(s)) { Ok((v, p)) => Ok((ValueView::ArrayI8(v), p)), Err(f) => Err(f) }
    } else if t == 2 {
        match p_fixed(b, pos, n, 2, |s: Seq<u8>| d_u16(s)) { Ok((v, p)) => Ok((ValueView::ArrayU16(v), p)), Err(f) => Err(f) }
    } else if t == 3 {
        match p_fixed(b, pos, n, 2, |s: Seq<u8>| d_i16(s)) { Ok((v, p)) => Ok((ValueView::ArrayI16(v), p)), Err(f) => Err(f) }
    } else if t == 4 {
        match p_fixed(b, pos, n, 4, |s: Seq<u8>| d_u32(s)) { Ok((v, p)) => Ok((ValueView::ArrayU32(v), p)), Err(f) => Err(f) }
    } else if t == 5 {
        match p_fixed(b, pos, n, 4, |s: Seq<u8>| d_i32(s)) { Ok((v, p)) => Ok((ValueView::ArrayI32(v), p)), Err(f) => Err(f) }
    } else if t == 6 {
        match p_fixed(b, pos, n, 4, |s: Seq<u8>| d_u32(s)) { Ok((v, p)) => Ok((ValueView::ArrayF32(v), p)), Err(f) => Err(f) }
    } else if t == 7 {
        match p_fixed(b, pos, n, 1, |s: Seq<u8>| d_bool(s)) { Ok((v, p)) => Ok((ValueView::ArrayBool(v), p)), Err(f) => Err(f) }
    } else if t == 8 {
        match p_strings(b, pos, n as nat) { Ok((v, p)) => Ok((ValueView::ArrayString(v), p)), Err(f) => Err(f) }
    } else if t == 10 {
        match p_fixed(b, pos, n, 8, |s: Seq<u8>| d_u64(s)) { Ok((v, p)) => Ok((ValueView::ArrayU64(v), p)), Err(f) => Err(f) }
    } else if t == 11 {
        match p_fixed(b, pos, n, 8, |s: Seq<u8>| d_i64(s)) { Ok((v, p)) => Ok((ValueView::ArrayI64(v), p)), Err(f) => Err(f) }
    } else if t == 12 {
        match p_fixed(b, pos, n, 8, |s: Seq<u8>| d_u64(s)) { Ok((v, p)) => Ok((ValueView::ArrayF64(v), p)), Err(f) => Err(f) }
    } else {
        Err(ParseFailure::UnsupportedType(t))
    }
}

/// An array value at `pos`: element type tag, element count, then the items.
pub open spec fn p_array(b: Seq<u8>, pos: int) -> Decoded<ValueView> {
    match p_u32(b, pos) {
        Ok((t, p1)) => match p_u64(b, p1) {
            Ok((n, p2)) => p_array_items(b, p2, t, n),
            Err(f) => Err(f),
        },
        Err(f) => Err(f),
    }
}

/// A value of type tag `t` at `pos`.
pub open spec fn p_value(b: Seq<u8>, pos: int, t: u32) -> Decoded<ValueView> {
    if width_of(t) > 0 {
        match p_bytes(b, pos, width_of(t)) {
            Ok((s, p)) => Ok((scalar_of(t, s), p)),
            Err(f) => Err(f),
        }
    } else if t == 8 {
        match p_string(b, pos) {
            Ok((s, p)) => Ok((ValueView::String(s), p)),
            Err(f) => Err(f),
        }
    } else if t == 9 {
        p_array(b, pos)
    } else {
        Err(ParseFailure::UnsupportedType(t))
    }
}

/// Reads `n` raw bytes.
fn read_bytes<'a>(r: &mut BufferedReader<'a>, n: u64) -> (res: Result<&'a [u8], GgufError>)
    ensures
        final(r).data() == old(r).data(),
        match p_bytes(old(r).data(), old(r).pos() as int, n as int) {
            Ok((s, p)) => res matches Ok(v) && v@ == s && final(r).pos() == p,
            Err(f) => res matches Err(e) && reports(e, f),
        },
{
    match r.take(n) {
        Some(b) => Ok(b),
        None => Err(GgufError::Io(unexpected_eof())),
    }
}

/// Reads a little-endian `u32`.
fn read_u32(r: &mut BufferedReader) -> (res: Result<u32, GgufError>)
    ensures
        final(r).data() == old(r).data(),
        match p_u32(old(r).data(), old(r).pos() as int) {
            Ok((v, p)) => res matches Ok(x) && x == v && final(r).pos() == p,
            Err(f) => res matches Err(e) && reports(e, f),
        },
{
    match r.take(4) {
        Some(b) => Ok(read_u32_le(b)),
        None => Err(GgufError::Io(unexpected_eof())),
    }
}

/// Reads a little-endian `u64`.
fn read_u64(r: &mut BufferedReader) -> (res: Result<u64, GgufError>)
    ensures
        final(r).data() == old(r).data(),
        match p_u64(old(r).data(), old(r).pos() as int) {
            Ok((v, p)) => res matches Ok(x) && x == v && final(r).pos() == p,
            Err(f) => res matches Err(e) && reports(e, f),
        },
{
    match r.take(8) {
        Some(b) => Ok(read_u64_le(b)),
        None => Err(GgufError::Io(unexpected_eof())),
    }
}

/// Reads a length-prefixed string's raw bytes.
fn read_string_bytes<'a>(r: &mut BufferedReader<'a>) -> (res: Result<&'a [u8], GgufError>)
    ensures
        final(r).data() == old(r).data(),
        match p_string(old(r).data(), old(r).pos() as int) {
            Ok((s, p)) => res matches Ok(v) && v@ == s && final(r).pos() == p,
            Err(f) => res matches Err(e) && reports(e, f),
        },
{
    let n = read_u64(r)?;
    read_bytes(r, n)
}

/// Reads a length-prefixed string and decodes it as UTF-8, replacing
/// invalid sequences.
pub fn read_string(r: &mut BufferedReader) -> (res: Result<String, GgufError>)
    ensures
        final(r).data() == old(r).data(),
        match p_string(old(r).data(), old(r).pos() as int) {
            Ok((s, p)) => res matches Ok(v) && encode_utf8(v@) == decode_lossy(s) && final(r).pos() == p,
            Err(f) => res matches Err(e) && reports(e, f),
        },
{
    let raw = read_string_bytes(r)?;
    Ok(lossy_string(raw))
}

/// Decodes one `bool` item.
fn dec_bool(b: &[u8]) -> (x: bool)
    requires
        b@.len() == 1,
    ensures
        x == d_bool(b@),
{
    b[0] != 0
}

/// Decodes one `i16` item.
fn dec_i16(b: &[u8]) -> (x: i16)
    requires
        b@.len() == 2,
    ensures
        x == d_i16(b@),
{
    read_i16_le(b)
}

/// Decodes one `i32` item.
fn dec_i32(b: &[u8]) -> (x: i32)
    requires
        b@.len() == 4,
    ensures
        x == d_i32(b@),
{
    read_i32_le(b)
}

/// Decodes one `i64` item.
fn dec_i64(b: &[u8]) -> (x: i64)
    requires
        b@.len() == 8,
    ensures
        x == d_i64(b@),
{
    read_i64_le(b)
}

/// Decodes one `i8` item.
fn dec_i8(b: &[u8]) -> (x: i8)
    requires
        b@.len() == 1,
    ensures
        x == d_i8(b@),
{
    b[0] as i8
}

/// Decodes one `u16` item.
fn dec_u16(b: &[u8]) -> (x: u16)
    requires
        b@.len() == 2,
    ensures
        x == d_u16(b@),
{
    read_u16_le(b)
}

/// Decodes one `u32` item.
fn dec_u32(b: &[u8]) -> (x: u32)
    requires
        b@.len() == 4,
    ensures
        x == d_u32(b@),
{
    read_u32_le(b)
}

/// Decodes one `u64` item.
fn dec_u64(b: &[u8]) -> (x: u64)
    requires
        b@.len() == 8,
    ensures
        x == d_u64(b@),
{
    read_u64_le(b)
}

/// Decodes one `u8` item.
fn dec_u8(b: &[u8]) -> (x: u8)
    requires
        b@.len() == 1,
    ensures
        x == d_u8(b@),
{
    b[0]
}

/// Reads `n` fixed-width items of `w` bytes each, decoding each with `f`
/// (whose meaning is `sf`).
fn read_fixed<'a, T, F: Fn(&[u8]) -> T>(
    r: &mut BufferedReader<'a>,
    n: u64,
    w: u64,
    f: F,
    Ghost(sf): Ghost<spec_fn(Seq<u8>) -> T>,
) -> (res: Result<Vec<T>, GgufError>)
    requires
        w > 0,
        forall|x: &[u8]| x@.len() == w ==> #[trigger] f.requires((x,)),
        forall|x: &[u8], y: T| #[trigger] f.ensures((x,), y) ==> y == sf(x@),
    ensures
        final(r).data() == old(r).data(),
        match p_fixed(old(r).data(), old(r).pos() as int, n as int, w as int, sf) {
            Ok((v, p)) => res matches Ok(x) && x@ == v && final(r).pos() == p,
            Err(fl) => res matches Err(e) && reports(e, fl),
        },
{
    let ghost data = r.data();
    let ghost start = r.pos() as int;
    let _ = r.offset();
    let mut out: Vec<T> = Vec::new();
    let mut i: u64 = 0;
    while i < n
        invariant
            w > 0,
            forall|x: &[u8]| x@.len() == w ==> #[trigger] f.requires((x,)),
            forall|x: &[u8], y: T| #[trigger] f.ensures((x,), y) ==> y == sf(x@),
            r.data() == data,
            data == old(r).data(),
            start == old(r).pos(),
            i <= n,
            r.pos() as int == start + i * w,
            start + i * w <= data.len(),
            out@ =~= Seq::new(i as nat, |k: int| sf(data.subrange(start + k * w, start + k * w + w))),
        decreases n - i,
    {
        match r.take(w) {
            Some(b) => {
                let v = f(b);
                out.push(v);
                proof {
                    assert(start + (i + 1) * w == start + i * w + w) by (nonlinear_arith);
                }
                i = i + 1;
            },
            None => {
                proof {
                    assert((i + 1) * w <= n * w) by (nonlinear_arith)
                        requires
                            i + 1 <= n,
                            w > 0,
                    ;
                    assert(start + i * w + w > data.len());
                    assert(start + (i + 1) * w == start + i * w + w) by (nonlinear_arith);
                }
                return Err(GgufError::Io(unexpected_eof()));
            },
        }
    }
    Ok(out)
}

/// Once a run of strings fails to decode, every longer run fails the same way.
proof fn lemma_strings_failure_persists(b: Seq<u8>, pos: int, k: nat, m: nat)
    requires
        k <= m,
        p_strings(b, pos, k) is Err,
    ensures
        p_strings(b, pos, m) == p_strings(b, pos, k),
    decreases m - k,
{
    if k < m {
        lemma_strings_failure_persists(b, pos, k, (m - 1) as nat);
    }
}

/// Reads `n` length-prefixed strings (raw bytes).
fn read_strings(r: &mut BufferedReader, n: u64) -> (res: Result<Vec<Vec<u8>>, GgufError>)
    ensures
        final(r).data() == old(r).data(),
        match p_strings(old(r).data(), old(r).pos() as int, n as nat) {
            Ok((v, p)) => res matches Ok(x) && byte_strings(x@) == v && final(r).pos() == p,
            Err(fl) => res matches Err(e) && reports(e, fl),
        },
{
    let ghost data = r.data();
    let ghost start = r.pos() as int;
    let mut out: Vec<Vec<u8>> = Vec::new();
    assert(byte_strings(out@) =~= Seq::<Seq<u8>>::empty());
    let mut i: u64 = 0;
    while i < n
        invariant
            r.data() == data,
            data == old(r).data(),
            start == old(r).pos(),
            i <= n,
            p_strings(data, start, i as nat) == Ok::<(Seq<Seq<u8>>, int), ParseFailure>((byte_strings(out@), r.pos() as int)),
        decreases n - i,
    {
        let ghost before = byte_strings(out@);
        let s = match read_string_bytes(r) {
            Ok(s) => s,
            Err(e) => {
                proof {
                    lemma_strings_failure_persists(data, start, (i + 1) as nat, n as nat);
                }
                return Err(e);
            },
        };
        let ghost old_out = out@;
        out.push(vstd::slice::slice_to_vec(s));
        assert(byte_strings(out@) =~= before.push(s@)) by {
            assert forall|k: int| 0 <= k < out@.len() implies #[trigger] byte_strings(out@)[k] == before.push(s@)[k] by {
                if k < old_out.len() {
                    assert(byte_strings(old_out)[k] == before[k]);
                }
            }
        }
        i = i + 1;
    }
    Ok(out)
}

/// Reads an array payload with element type `t` and `n` elements.
fn read_array_items(r: &mut BufferedReader, t: u32, n: u64) -> (res: Result<GgufValue, GgufError>)
    ensures
        final(r).data() == old(r).data(),
        match p_array_items(old(r).data(), old(r).pos() as int, t, n) {
            Ok((v, p)) => res matches Ok(x) && x@ == v && final(r).pos() == p,
            Err(fl) => res matches Err(e) && reports(e, fl),
        },
{
    if t == 0 {
        let v = read_fixed(
            r,
            n,
            1,
            dec_u8,
            Ghost(|s: Seq<u8>| d_u8(s)),
        )?;
        Ok(GgufValue::ArrayU8(v))
    } else if t == 1 {
        let v = read_fixed(
            r,
            n,
            1,
            dec_i8,
            Ghost(|s: Seq<u8>| d_i8(s)),
        )?;
        Ok(GgufValue::ArrayI8(v))
    } else if t == 2 {
        let v = read_fixed(
            r,
            n,
            2,
            dec_u16,
            Ghost(|s: Seq<u8>| d_u16(s)),
        )?;
        Ok(GgufValue::ArrayU16(v))
    } else if t == 3 {
        let v = read_fixed(
            r,
            n,
            2,
            dec_i16,
            Ghost(|s: Seq<u8>| d_i16(s)),
        )?;
        Ok(GgufValue::ArrayI16(v))
    } else if t == 4 {
        let v = read_fixed(
            r,
            n,
            4,
            dec_u32,
            Ghost(|s: Seq<u8>| d_u32(s)),
        )?;
        Ok(GgufValue::ArrayU32(v))
    } else if t == 5 {
        let v = read_fixed(
            r,
            n,
            4,
            dec_i32,
            Ghost(|s: Seq<u8>| d_i32(s)),
        )?;
        Ok(GgufValue::ArrayI32(v))
    } else if t == 6 {
        let v = read_fixed(
            r,
            n,
            4,
            dec_u32,
            Ghost(|s: Seq<u8>| d_u32(s)),
        )?;
        Ok(GgufValue::ArrayF32(v))
    } else if t == 7 {
        let v = read_fixed(
            r,
            n,
            1,
            dec_bool,
            Ghost(|s: Seq<u8>| d_bool(s)),
        )?;
        Ok(GgufValue::ArrayBool(v))
    } else if t == 10 {
        let v = read_fixed(
            r,
            n,
            8,
            dec_u64,
            Ghost(|s: Seq<u8>| d_u64(s)),
        )?;
        Ok(GgufValue::ArrayU64(v))
    } else if t == 11 {
        let v = read_fixed(
            r,
            n,
            8,
            dec_i64,
            Ghost(|s: Seq<u8>| d_i64(s)),
        )?;
        Ok(GgufValue::ArrayI64(v))
    } else if t == 12 {
        let v = read_fixed(r, n, 8, dec_u64, Ghost(|s: Seq<u8>| d_u64(s)))?;
        Ok(GgufValue::ArrayF64(v))
    } else if t == 8 {
        let v = read_strings(r, n)?;
        Ok(GgufValue::ArrayString(v))
    } else {
        Err(GgufError::UnsupportedType(t))
    }
}

/// Reads an array value: element type tag, element count, then the items.
fn read_array(r: &mut BufferedReader) -> (res: Result<GgufValue, GgufError>)
    ensures
        final(r).data() == old(r).data(),
        match p_array(old(r).data(), old(r).pos() as int) {
            Ok((v, p)) => res matches Ok(x) && x@ == v && final(r).pos() == p,
            Err(fl) => res matches Err(e) && reports(e, fl),
        },
{
    let t = read_u32(r)?;
    let n = read_u64(r)?;
    read_array_items(r, t, n)
}

/// Reads a value of type tag `t`.
fn read_value(r: &mut BufferedReader, t: u32) -> (res: Result<GgufValue, GgufError>)
    ensures
        final(r).data() == old(r).data(),
        match p_value(old(r).data(), old(r).pos() as int, t) {
            Ok((v, p)) => res matches Ok(x) && x@ == v && final(r).pos() == p,
            Err(fl) => res matches Err(e) && reports(e, fl),
        },
{
    if t == 0 || t == 1 || t == 7 {
        let b = read_bytes(r, 1)?;
        let x = b[0];
        if t == 0 {
            Ok(GgufValue::U8(x))
        } else if t == 1 {
            Ok(GgufValue::I8(x as i8))
        } else {
            Ok(GgufValue::Bool(x != 0))
        }
    } else if t == 2 || t == 3 {
        let b = read_bytes(r, 2)?;
        if t == 2 {
            Ok(GgufValue::U16(read_u16_le(b)))
        } else {
            Ok(GgufValue::I16(read_i16_le(b)))
        }
    } else if t == 4 || t == 5 || t == 6 {
        let b = read_bytes(r, 4)?;
        if t == 4 {
            Ok(GgufValue::U32(read_u32_le(b)))
        } else if t == 5 {
            Ok(GgufValue::I32(read_i32_le(b)))
        } else {
            Ok(GgufValue::F32(read_u32_le(b)))
        }
    } else if t == 10 || t == 11 || t == 12 {
        let b = read_bytes(r, 8)?;
        if t == 10 {
            Ok(GgufValue::U64(read_u64_le(b)))
        } else if t == 11 {
            Ok(GgufValue::I64(read_i64_le(b)))
        } else {
            Ok(GgufValue::F64(read_u64_le(b)))
        }
    } else if t == 8 {
        let s = read_string_bytes(r)?;
        Ok(GgufValue::String(vstd::slice::slice_to_vec(s)))
    } else if t == 9 {
        read_array(r)
    } else {
        Err(GgufError::UnsupportedType(t))
    }
}


/// Mathematical form of a key-value pair: the key's UTF-8 bytes and the value.
pub struct KeyValueView {
    pub key: Seq<u8>,
    pub value: Option<ValueView>,
}

/// Mathematical form of a tensor descriptor (name as UTF-8 bytes).
pub struct TensorView {
    pub name: Seq<u8>,
    pub offset: u64,
    pub shape: Seq<u64>,
    pub tensor_type: u32,
}

/// Mathematical form of a decoded file.
pub struct FileView {
    pub magic: Seq<u8>,
    pub version: u32,
    pub key_values: Seq<KeyValueView>,
    pub tensors: Seq<TensorView>,
    /// Absolute offset of the (aligned) tensor-data section.
    pub data_offset: int,
}

/// The form of a parsed key-value pair.
pub open spec fn kv_view(kv: KeyValue) -> KeyValueView {
    KeyValueView { key: kv.key_bytes(), value: kv.value@ }
}

/// The form of a tensor descriptor.
pub open spec fn tensor_view(t: TensorInfo) -> TensorView {
    TensorView { name: encode_utf8(t.name@), offset: t.offset, shape: t.shape@, tensor_type: t.tensor_type.0 }
}

/// A key-value pair at `pos`: key string, value type tag, value. The key is
/// decoded lossily as UTF-8.
pub open spec fn p_kv(b: Seq<u8>, pos: int) -> Decoded<KeyValueView> {
    match p_string(b, pos) {
        Ok((raw, p1)) => match p_u32(b, p1) {
            Ok((t, p2)) => match p_value(b, p2, t) {
                Ok((v, p3)) => Ok((KeyValueView { key: decode_lossy(raw), value: Some(v) }, p3)),
                Err(f) => Err(f),
            },
            Err(f) => Err(f),
        },
        Err(f) => Err(f),
    }
}

/// `n` consecutive key-value pairs at `pos`.
pub open spec fn p_kvs(b: Seq<u8>, pos: int, n: nat) -> Decoded<Seq<KeyValueView>>
    decreases n,
{
    if n == 0 {
        Ok((Seq::empty(), pos))
    } else {
        match p_kvs(b, pos, (n - 1) as nat) {
            Ok((xs, p)) => match p_kv(b, p) {
                Ok((x, q)) => Ok((xs.push(x), q)),
                Err(f) => Err(f),
            },
            Err(f) => Err(f),
        }
    }
}

/// A tensor descriptor at `pos`: name, dimension count, dimensions, type,
/// data offset.
pub open spec fn p_tensor(b: Seq<u8>, pos: int) -> Decoded<TensorView> {
    match p_string(b, pos) {
        Ok((raw, p1)) => match p_u32(b, p1) {
            Ok((dims, p2)) => match p_fixed(b, p2, dims as int, 8, |s: Seq<u8>| d_u64(s)) {
                Ok((shape, p3)) => match p_u32(b, p3) {
                    Ok((t, p4)) => match p_u64(b, p4) {
                        Ok((off, p5)) => Ok((TensorView { name: decode_lossy(raw), offset: off, shape: shape, tensor_type: t }, p5)),
                        Err(f) => Err(f),
                    },
                    Err(f) => Err(f),
                },
                Err(f) => Err(f),
            },
            Err(f) => Err(f),
        },
        Err(f) => Err(f),
    }
}

/// `n` consecutive tensor descriptors at `pos`.
pub open spec fn p_tensors(b: Seq<u8>, pos: int, n: nat) -> Decoded<Seq<TensorView>>
    decreases n,
{
    if n == 0 {
        Ok((Seq::empty(), pos))
    } else {
        match p_tensors(b, pos, (n - 1) as nat) {
            Ok((xs, p)) => match p_tensor(b, p) {
                Ok((x, q)) => Ok((xs.push(x), q)),
                Err(f) => Err(f),
            },
            Err(f) => Err(f),
        }
    }
}

/// The first pair whose key is `key`, or an empty pair (empty key, no
/// value) when there is none.
pub open spec fn lookup_kv(kvs: Seq<KeyValueView>, key: Seq<u8>) -> KeyValueView
    decreases kvs.len(),
{
    if kvs.len() == 0 {
        KeyValueView { key: Seq::empty(), value: None }
    } else if kvs[0].key == key {
        kvs[0]
    } else {
        lookup_kv(kvs.drop_first(), key)
    }
}

/// Value of the first pair whose key is `key` (`None` if there is none).
pub open spec fn lookup(kvs: Seq<KeyValueView>, key: Seq<u8>) -> Option<ValueView> {
    lookup_kv(kvs, key).value
}

/// The first descriptor named `name`, or an empty descriptor when there is
/// none.
pub open spec fn lookup_tensor(ts: Seq<TensorView>, name: Seq<u8>) -> TensorView
    decreases ts.len(),
{
    if ts.len() == 0 {
        TensorView { name: Seq::empty(), offset: 0, shape: Seq::empty(), tensor_type: 0 }
    } else if ts[0].name == name {
        ts[0]
    } else {
        lookup_tensor(ts.drop_first(), name)
    }
}

/// `lookup_kv` is the first pair with a matching key.
proof fn lemma_lookup_kv_first(kvs: Seq<KeyValueView>, key: Seq<u8>, i: int)
    requires
        0 <= i <= kvs.len(),
        forall|j: int| 0 <= j < i ==> (#[trigger] kvs[j]).key != key,
        i < kvs.len() ==> kvs[i].key == key,
    ensures
        lookup_kv(kvs, key) == (if i < kvs.len() { kvs[i] } else { KeyValueView { key: Seq::empty(), value: None } }),
    decreases i,
{
    if kvs.len() > 0 && i > 0 {
        assert(kvs[0].key != key);
        assert forall|j: int| 0 <= j < i - 1 implies (#[trigger] kvs.drop_first()[j]).key != key by {
            assert(kvs.drop_first()[j] == kvs[j + 1]);
        }
        lemma_lookup_kv_first(kvs.drop_first(), key, i - 1);
    }
}

/// `lookup_tensor` is the first descriptor with a matching name.
proof fn lemma_lookup_tensor_first(ts: Seq<TensorView>, name: Seq<u8>, i: int)
    requires
        0 <= i <= ts.len(),
        forall|j: int| 0 <= j < i ==> (#[trigger] ts[j]).name != name,
        i < ts.len() ==> ts[i].name == name,
    ensures
        lookup_tensor(ts, name) == (if i < ts.len() { ts[i] } else { TensorView { name: Seq::empty(), offset: 0, shape: Seq::empty(), tensor_type: 0 } }),
    decreases i,
{
    if ts.len() > 0 && i > 0 {
        assert(ts[0].name != name);
        assert forall|j: int| 0 <= j < i - 1 implies (#[trigger] ts.drop_first()[j]).name != name by {
            assert(ts.drop_first()[j] == ts[j + 1]);
        }
        lemma_lookup_tensor_first(ts.drop_first(), name, i - 1);
    }
}

/// Whether some pair has key `key`.
pub open spec fn has_key(kvs: Seq<KeyValueView>, key: Seq<u8>) -> bool {
    exists|i: int| 0 <= i < kvs.len() && (#[trigger] kvs[i]).key == key
}

/// The tensor-data alignment: `general.alignment` read as a signed integer
/// (so other integer kinds read as 0), or 32 when that is 0.
pub open spec fn alignment_of(kvs: Seq<KeyValueView>) -> int {
    let a = spec_int(lookup(kvs, encode_utf8("general.alignment"@)));
    if a != 0 {
        (a as u64) as int
    } else {
        32
    }
}

/// `raw` rounded up to a multiple of `a`.
pub open spec fn align_up(raw: int, a: int) -> int {
    raw + (a - raw % a) % a
}

/// Rounding up lands on a multiple of the alignment, less than one
/// alignment past the start.
proof fn lemma_align_up(raw: int, a: int)
    requires
        0 < a,
    ensures
        align_up(raw, a) % a == 0,
        raw <= align_up(raw, a) < raw + a,
{
    let r = raw % a;
    let q = raw / a;
    vstd::arithmetic::div_mod::lemma_fundamental_div_mod(raw, a);
    vstd::arithmetic::div_mod::lemma_mod_bound(raw, a);
    if r == 0 {
        vstd::arithmetic::div_mod::lemma_mod_self_0(a);
        assert(align_up(raw, a) == raw);
    } else {
        vstd::arithmetic::div_mod::lemma_small_mod((a - r) as nat, a as nat);
        assert(align_up(raw, a) == a * q + a);
        assert(a * q + a == (q + 1) * a) by (nonlinear_arith);
        vstd::arithmetic::div_mod::lemma_mod_multiples_basic(q + 1, a);
    }
}

/// The tensor data of a decoded image starts at a multiple of its
/// alignment (`general.alignment`, else 32).
pub proof fn lemma_data_offset_aligned(b: Seq<u8>)
    ensures
        p_file(b) matches Ok(v) ==> v.data_offset % alignment_of(v.key_values) == 0 && alignment_of(v.key_values) > 0,
{
    match p_file(b) {
        Ok(v) => {
            let a = alignment_of(v.key_values);
            let x = spec_int(lookup(v.key_values, encode_utf8("general.alignment"@)));
            assert(x != 0 ==> (x as u64) != 0) by (bit_vector);
            assert(a > 0);
            if let Ok((magic, version, tensor_count, kv_count)) = p_preamble(b) {
                if let Ok((kvs, p4)) = p_kvs(b, 24, kv_count as nat) {
                    if let Ok((tensors, p5)) = p_tensors(b, p4, tensor_count as nat) {
                        lemma_align_up(p5, a);
                    }
                }
            }
        },
        Err(_) => {},
    }
}

/// The bytes `GGUF`.
pub open spec fn gguf_magic() -> Seq<u8> {
    seq![71u8, 71u8, 85u8, 70u8]
}

/// The fixed-size preamble: magic, version (at least 2), tensor count and
/// key-value count; it always ends at byte 24.
pub open spec fn p_preamble(b: Seq<u8>) -> Result<(Seq<u8>, u32, u64, u64), ParseFailure> {
    match p_bytes(b, 0, 4) {
        Err(f) => Err(f),
        Ok((magic, p0)) => if magic != gguf_magic() {
            Err(ParseFailure::BadMagic(magic))
        } else {
            match p_u32(b, 4) {
                Err(f) => Err(f),
                Ok((version, p1)) => if version < 2 {
                    Err(ParseFailure::UnsupportedVersion(version))
                } else {
                    match p_u64(b, 8) {
                        Err(f) => Err(f),
                        Ok((tensor_count, p2)) => match p_u64(b, 16) {
                            Err(f) => Err(f),
                            Ok((kv_count, p3)) => Ok((magic, version, tensor_count, kv_count)),
                        },
                    }
                }
            }
        },
    }
}

/// A whole GGUF image: the preamble, the key-value pairs, the tensor
/// descriptors; the tensor data starts at the next multiple of the
/// alignment.
pub open spec fn p_file(b: Seq<u8>) -> Result<FileView, ParseFailure> {
    match p_preamble(b) {
        Err(f) => Err(f),
        Ok((magic, version, tensor_count, kv_count)) => match p_kvs(b, 24, kv_count as nat) {
            Err(f) => Err(f),
            Ok((kvs, p4)) => match p_tensors(b, p4, tensor_count as nat) {
                Err(f) => Err(f),
                Ok((tensors, p5)) => Ok(
                    FileView {
                        magic,
                        version,
                        key_values: kvs,
                        tensors,
                        data_offset: align_up(p5, alignment_of(kvs)),
                    },
                ),
            },
        },
    }
}

/// `c` is the first `c.len()` bytes of `b`.
pub open spec fn is_prefix(c: Seq<u8>, b: Seq<u8>) -> bool {
    c.len() <= b.len() && c == b.subrange(0, c.len() as int)
}

/// Decoding did not stop for lack of bytes: it succeeded or found the bytes
/// malformed.
pub open spec fn settled<T>(d: Decoded<T>) -> bool {
    !(d matches Err(ParseFailure::Eof))
}

proof fn lemma_take_prefix(c: Seq<u8>, b: Seq<u8>, pos: int, n: int)
    requires
        is_prefix(c, b),
    ensures
        take_at(c, pos, n) is Some ==> take_at(b, pos, n) == take_at(c, pos, n),
{
    if take_at(c, pos, n) is Some {
        assert(c.subrange(pos, pos + n) =~= b.subrange(pos, pos + n));
    }
}

proof fn lemma_u32_prefix(c: Seq<u8>, b: Seq<u8>, pos: int)
    requires
        is_prefix(c, b),
    ensures
        settled(p_u32(c, pos)) ==> p_u32(b, pos) == p_u32(c, pos),
        settled(p_u64(c, pos)) ==> p_u64(b, pos) == p_u64(c, pos),
{
    lemma_take_prefix(c, b, pos, 4);
    lemma_take_prefix(c, b, pos, 8);
}

proof fn lemma_string_prefix(c: Seq<u8>, b: Seq<u8>, pos: int)
    requires
        is_prefix(c, b),
    ensures
        settled(p_string(c, pos)) ==> p_string(b, pos) == p_string(c, pos),
{
    lemma_u32_prefix(c, b, pos);
    if let Ok((n, p)) = p_u64(c, pos) {
        lemma_take_prefix(c, b, p, n as int);
    }
}

proof fn lemma_fixed_prefix<T>(c: Seq<u8>, b: Seq<u8>, pos: int, n: int, w: int)
    requires
        is_prefix(c, b),
        0 <= n,
        0 <= w,
    ensures
        forall|f: spec_fn(Seq<u8>) -> T|
            settled(#[trigger] p_fixed(c, pos, n, w, f)) ==> p_fixed(b, pos, n, w, f) == p_fixed(c, pos, n, w, f),
{
    if 0 <= pos && pos + n * w <= c.len() {
        assert forall|f: spec_fn(Seq<u8>) -> T| settled(#[trigger] p_fixed(c, pos, n, w, f)) implies p_fixed(b, pos, n, w, f)
            == p_fixed(c, pos, n, w, f) by {
            assert_seqs_equal!(
                Seq::new(n as nat, |i: int| f(c.subrange(pos + i * w, pos + i * w + w))),
                Seq::new(n as nat, |i: int| f(b.subrange(pos + i * w, pos + i * w + w))),
                i => {
                    assert(0 <= i * w && i * w + w <= n * w) by (nonlinear_arith)
                        requires
                            0 <= i < n,
                            0 <= w,
                    ;
                    assert(c.subrange(pos + i * w, pos + i * w + w) =~= b.subrange(pos + i * w, pos + i * w + w));
                }
            );
        }
    }
}

proof fn lemma_strings_prefix(c: Seq<u8>, b: Seq<u8>, pos: int, n: nat)
    requires
        is_prefix(c, b),
    ensures
        settled(p_strings(c, pos, n)) ==> p_strings(b, pos, n) == p_strings(c, pos, n),
    decreases n,
{
    if n > 0 {
        lemma_strings_prefix(c, b, pos, (n - 1) as nat);
        if let Ok((xs, p)) = p_strings(c, pos, (n - 1) as nat) {
            lemma_string_prefix(c, b, p);
        }
    }
}

proof fn lemma_value_prefix(c: Seq<u8>, b: Seq<u8>, pos: int, t: u32)
    requires
        is_prefix(c, b),
    ensures
        settled(p_value(c, pos, t)) ==> p_value(b, pos, t) == p_value(c, pos, t),
{
    lemma_take_prefix(c, b, pos, width_of(t));
    lemma_string_prefix(c, b, pos);
    lemma_u32_prefix(c, b, pos);
    if let Ok((et, p1)) = p_u32(c, pos) {
        lemma_u32_prefix(c, b, p1);
        if let Ok((n, p2)) = p_u64(c, p1) {
            lemma_fixed_prefix::<u8>(c, b, p2, n as int, 1);
            lemma_fixed_prefix::<i8>(c, b, p2, n as int, 1);
            lemma_fixed_prefix::<u16>(c, b, p2, n as int, 2);
            lemma_fixed_prefix::<i16>(c, b, p2, n as int, 2);
            lemma_fixed_prefix::<u32>(c, b, p2, n as int, 4);
            lemma_fixed_prefix::<i32>(c, b, p2, n as int, 4);
            lemma_fixed_prefix::<bool>(c, b, p2, n as int, 1);
            lemma_fixed_prefix::<u64>(c, b, p2, n as int, 8);
            lemma_fixed_prefix::<i64>(c, b, p2, n as int, 8);
            lemma_strings_prefix(c, b, p2, n as nat);
        }
    }
}

proof fn lemma_kvs_prefix(c: Seq<u8>, b: Seq<u8>, pos: int, n: nat)
    requires
        is_prefix(c, b),
    ensures
        settled(p_kvs(c, pos, n)) ==> p_kvs(b, pos, n) == p_kvs(c, pos, n),
    decreases n,
{
    if n > 0 {
        lemma_kvs_prefix(c, b, pos, (n - 1) as nat);
        if let Ok((xs, p)) = p_kvs(c, pos, (n - 1) as nat) {
            lemma_string_prefix(c, b, p);
            if let Ok((raw, p1)) = p_string(c, p) {
                lemma_u32_prefix(c, b, p1);
                if let Ok((t, p2)) = p_u32(c, p1) {
                    lemma_value_prefix(c, b, p2, t);
                }
            }
        }
    }
}

proof fn lemma_tensors_prefix(c: Seq<u8>, b: Seq<u8>, pos: int, n: nat)
    requires
        is_prefix(c, b),
    ensures
        settled(p_tensors(c, pos, n)) ==> p_tensors(b, pos, n) == p_tensors(c, pos, n),
    decreases n,
{
    if n > 0 {
        lemma_tensors_prefix(c, b, pos, (n - 1) as nat);
        if let Ok((xs, p)) = p_tensors(c, pos, (n - 1) as nat) {
            lemma_string_prefix(c, b, p);
            if let Ok((raw, p1)) = p_string(c, p) {
                lemma_u32_prefix(c, b, p1);
                if let Ok((dims, p2)) = p_u32(c, p1) {
                    lemma_fixed_prefix::<u64>(c, b, p2, dims as int, 8);
                    if let Ok((shape, p3)) = p_fixed(c, p2, dims as int, 8, |s: Seq<u8>| d_u64(s)) {
                        lemma_u32_prefix(c, b, p3);
                        lemma_u32_prefix(c, b, p3 + 4);
                    }
                }
            }
        }
    }
}

/// Decoding reads only the header: once a leading part of an image decodes,
/// or is found malformed, the whole image gives the same outcome, whatever
/// bytes follow.
pub proof fn lemma_parse_prefix(c: Seq<u8>, b: Seq<u8>)
    requires
        is_prefix(c, b),
    ensures
        !(p_file(c) matches Err(ParseFailure::Eof)) ==> p_file(b) == p_file(c),
{
    lemma_take_prefix(c, b, 0, 4);
    lemma_u32_prefix(c, b, 4);
    lemma_u32_prefix(c, b, 8);
    lemma_u32_prefix(c, b, 16);
    if let Ok((magic, version, tensor_count, kv_count)) = p_preamble(c) {
        lemma_kvs_prefix(c, b, 24, kv_count as nat);
        if let Ok((kvs, p4)) = p_kvs(c, 24, kv_count as nat) {
            lemma_tensors_prefix(c, b, p4, tensor_count as nat);
        }
    }
}

/// Reads a key-value pair.
fn read_key_value(r: &mut BufferedReader) -> (res: Result<KeyValue, GgufError>)
    ensures
        final(r).data() == old(r).data(),
        match p_kv(old(r).data(), old(r).pos() as int) {
            Ok((v, p)) => res matches Ok(x) && kv_view(x) == v && final(r).pos() == p,
            Err(fl) => res matches Err(e) && reports(e, fl),
        },
{
    let key = read_string(r)?;
    let t = read_u32(r)?;
    let value = read_value(r, t)?;
    Ok(KeyValue { key, value: Value::new(value) })
}

/// Once a run of pairs fails to decode, every longer run fails the same way.
proof fn lemma_kvs_failure_persists(b: Seq<u8>, pos: int, k: nat, m: nat)
    requires
        k <= m,
        p_kvs(b, pos, k) is Err,
    ensures
        p_kvs(b, pos, m) == p_kvs(b, pos, k),
    decreases m - k,
{
    if k < m {
        lemma_kvs_failure_persists(b, pos, k, (m - 1) as nat);
    }
}

/// Reads `n` key-value pairs.
fn read_key_values(r: &mut BufferedReader, n: u64) -> (res: Result<Vec<KeyValue>, GgufError>)
    ensures
        final(r).data() == old(r).data(),
        match p_kvs(old(r).data(), old(r).pos() as int, n as nat) {
            Ok((v, p)) => res matches Ok(x) && x@.map_values(|kv: KeyValue| kv_view(kv)) == v && final(r).pos() == p,
            Err(fl) => res matches Err(e) && reports(e, fl),
        },
{
    let ghost data = r.data();
    let ghost start = r.pos() as int;
    let mut out: Vec<KeyValue> = Vec::new();
    assert(out@.map_values(|kv: KeyValue| kv_view(kv)) =~= Seq::<KeyValueView>::empty());
    let mut i: u64 = 0;
    while i < n
        invariant
            r.data() == data,
            data == old(r).data(),
            start == old(r).pos(),
            i <= n,
            p_kvs(data, start, i as nat) == Ok::<(Seq<KeyValueView>, int), ParseFailure>((out@.map_values(|kv: KeyValue| kv_view(kv)), r.pos() as int)),
        decreases n - i,
    {
        let ghost before = out@.map_values(|kv: KeyValue| kv_view(kv));
        let kv = match read_key_value(r) {
            Ok(kv) => kv,
            Err(e) => {
                proof {
                    lemma_kvs_failure_persists(data, start, (i + 1) as nat, n as nat);
                }
                return Err(e);
            },
        };
        let ghost kvv = kv_view(kv);
        out.push(kv);
        assert(out@.map_values(|kv: KeyValue| kv_view(kv)) =~= before.push(kvv));
        i = i + 1;
    }
    Ok(out)
}

/// Reads a tensor descriptor.
fn read_tensor(r: &mut BufferedReader) -> (res: Result<TensorInfo, GgufError>)
    ensures
        final(r).data() == old(r).data(),
        match p_tensor(old(r).data(), old(r).pos() as int) {
            Ok((v, p)) => res matches Ok(x) && tensor_view(x) == v && final(r).pos() == p,
            Err(fl) => res matches Err(e) && reports(e, fl),
        },
{
    let name = read_string(r)?;
    let dims = read_u32(r)?;
    let shape = read_fixed(
        r,
        dims as u64,
        8,
        dec_u64,
        Ghost(|s: Seq<u8>| d_u64(s)),
    )?;
    let t = read_u32(r)?;
    let offset = read_u64(r)?;
    Ok(TensorInfo { name, offset, shape, tensor_type: TensorType(t) })
}

/// Once a run of descriptors fails to decode, every longer run fails the same way.
proof fn lemma_tensors_failure_persists(b: Seq<u8>, pos: int, k: nat, m: nat)
    requires
        k <= m,
        p_tensors(b, pos, k) is Err,
    ensures
        p_tensors(b, pos, m) == p_tensors(b, pos, k),
    decreases m - k,
{
    if k < m {
        lemma_tensors_failure_persists(b, pos, k, (m - 1) as nat);
    }
}

/// Reads `n` tensor descriptors.
fn read_tensors(r: &mut BufferedReader, n: u64) -> (res: Result<Vec<TensorInfo>, GgufError>)
    ensures
        final(r).data() == old(r).data(),
        match p_tensors(old(r).data(), old(r).pos() as int, n as nat) {
            Ok((v, p)) => res matches Ok(x) && x@.map_values(|t: TensorInfo| tensor_view(t)) == v && final(r).pos() == p,
            Err(fl) => res matches Err(e) && reports(e, fl),
        },
{
    let ghost data = r.data();
    let ghost start = r.pos() as int;
    let mut out: Vec<TensorInfo> = Vec::new();
    assert(out@.map_values(|t: TensorInfo| tensor_view(t)) =~= Seq::<TensorView>::empty());
    let mut i: u64 = 0;
    while i < n
        invariant
            r.data() == data,
            data == old(r).data(),
            start == old(r).pos(),
            i <= n,
            p_tensors(data, start, i as nat) == Ok::<(Seq<TensorView>, int), ParseFailure>((out@.map_values(|t: TensorInfo| tensor_view(t)), r.pos() as int)),
        decreases n - i,
    {
        let ghost before = out@.map_values(|t: TensorInfo| tensor_view(t));
        let t = match read_tensor(r) {
            Ok(t) => t,
            Err(e) => {
                proof {
                    lemma_tensors_failure_persists(data, start, (i + 1) as nat, n as nat);
                }
                return Err(e);
            },
        };
        let ghost tv = tensor_view(t);
        out.push(t);
        assert(out@.map_values(|t: TensorInfo| tensor_view(t)) =~= before.push(tv));
        i = i + 1;
    }
    Ok(out)
}


/// Rounding up to the alignment stays within `u64` for any offset the
/// parser can reach (files hold at most `i64::MAX` bytes).
proof fn lemma_align_fits(raw: int, a: int)
    requires
        0 <= raw <= i64::MAX,
        1 <= a <= u64::MAX,
    ensures
        raw <= align_up(raw, a) <= u64::MAX,
{
    let m = raw % a;
    vstd::arithmetic::div_mod::lemma_mod_bound(raw, a);
    if m == 0 {
        vstd::arithmetic::div_mod::lemma_mod_self_0(a);
    } else {
        vstd::arithmetic::div_mod::lemma_small_mod((a - m) as nat, a as nat);
        if a > raw {
            vstd::arithmetic::div_mod::lemma_small_mod(raw as nat, a as nat);
        }
    }
}

/// Byte equality of two slices.
pub(crate) fn bytes_eq(a: &[u8], b: &[u8]) -> (r: bool)
    ensures
        r == (a@ == b@),
{
    if a.len() != b.len() {
        return false;
    }
    let mut i: usize = 0;
    while i < a.len()
        invariant
            a@.len() == b@.len(),
            i <= a@.len(),
            forall|j: int| 0 <= j < i ==> a@[j] == b@[j],
        decreases a@.len() - i,
    {
        if a[i] != b[i] {
            return false;
        }
        i = i + 1;
    }
    assert(a@ =~= b@);
    true
}

/// Whether `s` starts with `p`.
pub fn starts_with(s: &[u8], p: &[u8]) -> (r: bool)
    ensures
        r == starts_with_bytes(s@, p@),
{
    if p.len() > s.len() {
        return false;
    }
    let head = vstd::slice::slice_subrange(s, 0, p.len());
    bytes_eq(head, p)
}

/// First pair in `kvs` whose key has the UTF-8 bytes `key`, copied, or an
/// empty pair.
fn key_value_lookup(kvs: &[KeyValue], key: &[u8]) -> (r: KeyValue)
    ensures
        kv_view(r) == lookup_kv(kvs@.map_values(|kv: KeyValue| kv_view(kv)), key@),
{
    let ghost views = kvs@.map_values(|kv: KeyValue| kv_view(kv));
    let mut i: usize = 0;
    while i < kvs.len()
        invariant
            i <= kvs@.len(),
            views == kvs@.map_values(|kv: KeyValue| kv_view(kv)),
            forall|j: int| 0 <= j < i ==> (#[trigger] views[j]).key != key@,
        decreases kvs@.len() - i,
    {
        if bytes_eq(kvs[i].key.as_str().as_bytes(), key) {
            proof {
                lemma_lookup_kv_first(views, key@, i as int);
            }
            return kvs[i].duplicate();
        }
        i = i + 1;
    }
    proof {
        lemma_lookup_kv_first(views, key@, i as int);
    }
    let r = KeyValue { key: String::new(), value: Value(None) };
    assert(kv_view(r).key =~= Seq::<u8>::empty());
    r
}

/// Reads the preamble.
fn read_preamble(r: &mut BufferedReader) -> (res: Result<([u8; 4], u32, u64, u64), GgufError>)
    requires
        old(r).pos() == 0,
    ensures
        final(r).data() == old(r).data(),
        match p_preamble(old(r).data()) {
            Ok((m, v, tc, kc)) => res matches Ok(x) && x.0@ == m && x.1 == v && x.2 == tc && x.3 == kc
                && final(r).pos() == 24,
            Err(fl) => res matches Err(e) && reports(e, fl),
        },
{
    let m = read_bytes(r, 4)?;
    let magic: [u8; 4] = [m[0], m[1], m[2], m[3]];
    assert(magic@ =~= m@);
    if !(m[0] == 71 && m[1] == 71 && m[2] == 85 && m[3] == 70) {
        assert(m@ != gguf_magic()) by {
            if m@ == gguf_magic() {
                assert(m@[0] == 71 && m@[1] == 71 && m@[2] == 85 && m@[3] == 70);
            }
        }
        return Err(GgufError::BadMagic(vstd::slice::slice_to_vec(m)));
    }
    assert(m@ =~= gguf_magic());
    let version = read_u32(r)?;
    if version < 2 {
        return Err(GgufError::UnsupportedVersion(version));
    }
    let tensor_count = read_u64(r)?;
    let kv_count = read_u64(r)?;
    Ok((magic, version, tensor_count, kv_count))
}

/// An open GGUF file: header, decoded key-value metadata, and tensor
/// descriptors. Tensor data itself is located on demand via
/// `tensor_data_range`.
#[derive(Debug)]
pub struct File {
    pub magic: [u8; 4],
    pub version: u32,
    key_values: Vec<KeyValue>,
    tensors: Vec<TensorInfo>,
    /// Absolute byte offset (from the start of the file) where the
    /// (alignment-padded) tensor data section begins.
    offset: u64,
}

impl View for File {
    type V = FileView;

    closed spec fn view(&self) -> FileView {
        FileView {
            magic: self.magic@,
            version: self.version,
            key_values: self.key_values@.map_values(|kv: KeyValue| kv_view(kv)),
            tensors: self.tensors@.map_values(|t: TensorInfo| tensor_view(t)),
            data_offset: self.offset as int,
        }
    }
}

/// The full key that a lookup of `key` uses: keys in the `general.` and
/// `tokenizer.` namespaces as they are, others prefixed by the model's
/// architecture and a dot (`context_length` -> `llama.context_length`).
pub open spec fn qualified_key(kvs: Seq<KeyValueView>, key: Seq<u8>) -> Seq<u8> {
    if starts_with_bytes(key, encode_utf8("general."@)) || starts_with_bytes(key, encode_utf8("tokenizer."@)) {
        key
    } else {
        decode_lossy(crate::gguf::keyvalue::spec_string_bytes(lookup(kvs, encode_utf8("general.architecture"@))))
            + seq![46u8] + key
    }
}

impl File {
    /// Decodes a GGUF image held in memory: validates the magic bytes and
    /// version, then decodes all key-value pairs and tensor descriptors in
    /// file order and locates the aligned tensor-data section.
    pub fn parse(bytes: &[u8]) -> (res: Result<File, GgufError>)
        requires
            bytes@.len() <= i64::MAX,
        ensures
            match p_file(bytes@) {
                Ok(v) => res matches Ok(f) && f@ == v,
                Err(fl) => res matches Err(e) && reports(e, fl),
            },
    {
        let mut reader = BufferedReader::new(bytes);
        let (magic, version, tensor_count, kv_count) = read_preamble(&mut reader)?;
        let key_values = read_key_values(&mut reader, kv_count)?;
        let tensors = read_tensors(&mut reader, tensor_count)?;
        let a = key_value_lookup(key_values.as_slice(), "general.alignment".as_bytes()).int_value();
        let alignment: u64 = if a != 0 {
            a as u64
        } else {
            32
        };
        let raw = reader.offset();
        proof {
            assert(a != 0i64 ==> (a as u64) != 0u64) by (bit_vector);
            lemma_align_fits(raw as int, alignment as int);
        }
        let offset = raw + (alignment - raw % alignment) % alignment;
        File { magic, version, key_values, tensors, offset }.into_ok()
    }

    /// Wraps in `Ok`.
    fn into_ok(self) -> (r: Result<File, GgufError>)
        ensures
            r matches Ok(f) && f == self,
    {
        Ok(self)
    }

    /// Looks up a metadata key-value pair by key. Keys without a
    /// `general.`/`tokenizer.` namespace prefix are qualified with the
    /// model's architecture (e.g. `context_length` -> `llama.context_length`).
    /// A missing key yields an empty pair.
    pub fn key_value(&self, key: &str) -> (r: KeyValue)
        ensures
            kv_view(r) == lookup_kv(self@.key_values, qualified_key(self@.key_values, key.spec_bytes())),
    {
        let kb = key.as_bytes();
        if starts_with(kb, "general.".as_bytes()) || starts_with(kb, "tokenizer.".as_bytes()) {
            return key_value_lookup(self.key_values.as_slice(), kb);
        }
        let arch_kv = key_value_lookup(self.key_values.as_slice(), "general.architecture".as_bytes());
        let arch = arch_kv.string();
        let ab = arch.as_str().as_bytes();
        let mut full: Vec<u8> = vstd::slice::slice_to_vec(ab);
        full.push(46u8);
        let mut i: usize = 0;
        while i < kb.len()
            invariant
                i <= kb@.len(),
                full@ == ab@ + seq![46u8] + kb@.subrange(0, i as int),
            decreases kb@.len() - i,
        {
            full.push(kb[i]);
            i = i + 1;
            assert(kb@.subrange(0, i as int) =~= kb@.subrange(0, i - 1).push(kb@[i - 1]));
        }
        assert(kb@.subrange(0, kb@.len() as int) =~= kb@);
        key_value_lookup(self.key_values.as_slice(), full.as_slice())
    }

    /// Returns the total number of key-value pairs declared in the file.
    pub fn num_key_values(&self) -> (r: usize)
        ensures
            r == self@.key_values.len(),
    {
        self.key_values.len()
    }

    /// All key-value pairs in the file, in declaration order.
    pub fn key_values(&self) -> (r: &[KeyValue])
        ensures
            r@.map_values(|kv: KeyValue| kv_view(kv)) == self@.key_values,
    {
        self.key_values.as_slice()
    }

    /// Looks up tensor metadata by name (an empty descriptor if absent).
    pub fn tensor_info(&self, name: &str) -> (r: TensorInfo)
        ensures
            tensor_view(r) == lookup_tensor(self@.tensors, name.spec_bytes()),
    {
        let nb = name.as_bytes();
        let ghost views = self@.tensors;
        let mut i: usize = 0;
        while i < self.tensors.len()
            invariant
                i <= self.tensors@.len(),
                views == self.tensors@.map_values(|t: TensorInfo| tensor_view(t)),
                views == self@.tensors,
                nb@ == name.spec_bytes(),
                forall|j: int| 0 <= j < i ==> (#[trigger] views[j]).name != nb@,
            decreases self.tensors@.len() - i,
        {
            if bytes_eq(self.tensors[i].name.as_str().as_bytes(), nb) {
                let r = self.tensors[i].duplicate();
                proof {
                    assert(views[i as int] == tensor_view(self.tensors@[i as int]));
                    assert(views[i as int].name == nb@);
                    lemma_lookup_tensor_first(views, nb@, i as int);
                    assert(tensor_view(r) == tensor_view(self.tensors@[i as int]));
                }
                return r;
            }
            i = i + 1;
        }
        proof {
            lemma_lookup_tensor_first(views, nb@, i as int);
        }
        let r = TensorInfo::empty();
        assert(tensor_view(r).name =~= Seq::<u8>::empty());
        assert(tensor_view(r).shape =~= Seq::<u64>::empty());
        r
    }

    /// Returns the total number of tensors declared in the file.
    pub fn num_tensors(&self) -> (r: usize)
        ensures
            r == self@.tensors.len(),
    {
        self.tensors.len()
    }

    /// All tensor descriptors in the file, in declaration order.
    pub fn tensor_infos(&self) -> (r: &[TensorInfo])
        ensures
            r@.map_values(|t: TensorInfo| tensor_view(t)) == self@.tensors,
    {
        self.tensors.as_slice()
    }

    /// Absolute offset of the tensor-data section.
    pub fn data_offset(&self) -> (r: u64)
        ensures
            r == self@.data_offset,
    {
        self.offset
    }

    /// Locates the data of the named tensor: its descriptor, the absolute
    /// offset of its first byte in the file, and its length in bytes. A
    /// missing or zero-byte tensor is `TensorNotFound`; `None` where the
    /// tensor's size or position does not fit the integer types (a negative
    /// size or an offset past `u64::MAX`).
    pub fn tensor_data_range(&self, name: &str) -> (r: Option<Result<(TensorInfo, u64, u64), GgufError>>)
        ensures
            ({
                let t = lookup_tensor(self@.tensors, name.spec_bytes());
                let nb = spec_num_bytes(dims_product(t.shape), t.tensor_type);
                &&& !dims_fit(t.shape) ==> r is None
                &&& dims_fit(t.shape) && nb == 0 ==> (r matches Some(Err(GgufError::TensorNotFound(n))) && n@ == name@)
                &&& dims_fit(t.shape) && nb != 0 && (nb < 0 || self@.data_offset + t.offset > u64::MAX) ==> r is None
                &&& dims_fit(t.shape) && nb > 0 && self@.data_offset + t.offset <= u64::MAX ==> (r matches Some(
                    Ok((ti, start, len)),
                ) && tensor_view(ti) == t && start == self@.data_offset + t.offset && len == nb)
            }),
    {
        let t = self.tensor_info(name);
        if !t.shape_fits() {
            return None;
        }
        let nb = t.num_bytes();
        if nb == 0 {
            return Some(Err(GgufError::TensorNotFound(name.to_owned())));
        }
        if nb < 0 || t.offset > u64::MAX - self.offset {
            return None;
        }
        let start = self.offset + t.offset;
        Some(Ok((t, start, nb as u64)))
    }
}

} // verus!
