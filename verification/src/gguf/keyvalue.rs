//! Decoded GGUF metadata values and key-value pairs.
//!
//! Floating-point values are kept as their raw IEEE-754 bit patterns; the
//! metadata logic never computes with them.

use vstd::prelude::*;
use vstd::utf8::encode_utf8;
use crate::text::{byte_strings, lossy_string, decode_lossy};

verus! {

/// A decoded GGUF metadata value (scalar or array). `F32`/`F64` (and their
/// arrays) hold raw IEEE-754 bits. Strings hold their raw bytes, which GGUF
/// does not guarantee to be UTF-8.
#[derive(Debug, PartialEq, Eq)]
pub enum GgufValue {
    U8(u8),
    I8(i8),
    U16(u16),
    I16(i16),
    U32(u32),
    I32(i32),
    U64(u64),
    I64(i64),
    F32(u32),
    F64(u64),
    Bool(bool),
    String(Vec<u8>),
    ArrayU8(Vec<u8>),
    ArrayI8(Vec<i8>),
    ArrayU16(Vec<u16>),
    ArrayI16(Vec<i16>),
    ArrayU32(Vec<u32>),
    ArrayI32(Vec<i32>),
    ArrayU64(Vec<u64>),
    ArrayI64(Vec<i64>),
    ArrayF32(Vec<u32>),
    ArrayF64(Vec<u64>),
    ArrayBool(Vec<bool>),
    ArrayString(Vec<Vec<u8>>),
}

/// Mathematical form of a `GgufValue`.
pub enum ValueView {
    U8(u8),
    I8(i8),
    U16(u16),
    I16(i16),
    U32(u32),
    I32(i32),
    U64(u64),
    I64(i64),
    F32(u32),
    F64(u64),
    Bool(bool),
    String(Seq<u8>),
    ArrayU8(Seq<u8>),
    ArrayI8(Seq<i8>),
    ArrayU16(Seq<u16>),
    ArrayI16(Seq<i16>),
    ArrayU32(Seq<u32>),
    ArrayI32(Seq<i32>),
    ArrayU64(Seq<u64>),
    ArrayI64(Seq<i64>),
    ArrayF32(Seq<u32>),
    ArrayF64(Seq<u64>),
    ArrayBool(Seq<bool>),
    ArrayString(Seq<Seq<u8>>),
}

impl View for GgufValue {
    type V = ValueView;

    open spec fn view(&self) -> ValueView {
        match self {
            GgufValue::U8(x) => ValueView::U8(*x),
            GgufValue::I8(x) => ValueView::I8(*x),
            GgufValue::U16(x) => ValueView::U16(*x),
            GgufValue::I16(x) => ValueView::I16(*x),
            GgufValue::U32(x) => ValueView::U32(*x),
            GgufValue::I32(x) => ValueView::I32(*x),
            GgufValue::U64(x) => ValueView::U64(*x),
            GgufValue::I64(x) => ValueView::I64(*x),
            GgufValue::F32(x) => ValueView::F32(*x),
            GgufValue::F64(x) => ValueView::F64(*x),
            GgufValue::Bool(x) => ValueView::Bool(*x),
            GgufValue::String(x) => ValueView::String(x@),
            GgufValue::ArrayU8(x) => ValueView::ArrayU8(x@),
            GgufValue::ArrayI8(x) => ValueView::ArrayI8(x@),
            GgufValue::ArrayU16(x) => ValueView::ArrayU16(x@),
            GgufValue::ArrayI16(x) => ValueView::ArrayI16(x@),
            GgufValue::ArrayU32(x) => ValueView::ArrayU32(x@),
            GgufValue::ArrayI32(x) => ValueView::ArrayI32(x@),
            GgufValue::ArrayU64(x) => ValueView::ArrayU64(x@),
            GgufValue::ArrayI64(x) => ValueView::ArrayI64(x@),
            GgufValue::ArrayF32(x) => ValueView::ArrayF32(x@),
            GgufValue::ArrayF64(x) => ValueView::ArrayF64(x@),
            GgufValue::ArrayBool(x) => ValueView::ArrayBool(x@),
            GgufValue::ArrayString(x) => ValueView::ArrayString(byte_strings(x@)),
        }
    }
}

/// Signed integer reading of a value: any signed integer kind widened to
/// `i64`, anything else 0.
pub open spec fn spec_int(v: Option<ValueView>) -> i64 {
    match v {
        Some(ValueView::I8(x)) => x as i64,
        Some(ValueView::I16(x)) => x as i64,
        Some(ValueView::I32(x)) => x as i64,
        Some(ValueView::I64(x)) => x,
        _ => 0,
    }
}

/// Signed integer array reading of a value (empty for other kinds).
pub open spec fn spec_ints(v: Option<ValueView>) -> Seq<i64> {
    match v {
        Some(ValueView::ArrayI8(a)) => Seq::new(a.len(), |i: int| a[i] as i64),
        Some(ValueView::ArrayI16(a)) => Seq::new(a.len(), |i: int| a[i] as i64),
        Some(ValueView::ArrayI32(a)) => Seq::new(a.len(), |i: int| a[i] as i64),
        Some(ValueView::ArrayI64(a)) => a,
        _ => Seq::empty(),
    }
}

/// Unsigned integer reading of a value: any unsigned integer kind widened
/// to `u64`, anything else 0.
pub open spec fn spec_uint(v: Option<ValueView>) -> u64 {
    match v {
        Some(ValueView::U8(x)) => x as u64,
        Some(ValueView::U16(x)) => x as u64,
        Some(ValueView::U32(x)) => x as u64,
        Some(ValueView::U64(x)) => x,
        _ => 0,
    }
}

/// Unsigned integer array reading of a value (empty for other kinds).
pub open spec fn spec_uints(v: Option<ValueView>) -> Seq<u64> {
    match v {
        Some(ValueView::ArrayU8(a)) => Seq::new(a.len(), |i: int| a[i] as u64),
        Some(ValueView::ArrayU16(a)) => Seq::new(a.len(), |i: int| a[i] as u64),
        Some(ValueView::ArrayU32(a)) => Seq::new(a.len(), |i: int| a[i] as u64),
        Some(ValueView::ArrayU64(a)) => a,
        _ => Seq::empty(),
    }
}

/// Boolean reading of a value (false for other kinds).
pub open spec fn spec_bool(v: Option<ValueView>) -> bool {
    match v {
        Some(ValueView::Bool(b)) => b,
        _ => false,
    }
}

/// Boolean array reading of a value (empty for other kinds).
pub open spec fn spec_bools(v: Option<ValueView>) -> Seq<bool> {
    match v {
        Some(ValueView::ArrayBool(a)) => a,
        _ => Seq::empty(),
    }
}

/// Raw string bytes of a value (empty for other kinds).
pub open spec fn spec_string_bytes(v: Option<ValueView>) -> Seq<u8> {
    match v {
        Some(ValueView::String(s)) => s,
        _ => Seq::empty(),
    }
}

/// Raw string array of a value (empty for other kinds).
pub open spec fn spec_strings_bytes(v: Option<ValueView>) -> Seq<Seq<u8>> {
    match v {
        Some(ValueView::ArrayString(a)) => a,
        _ => Seq::empty(),
    }
}

/// Copies a vector of plain values.
fn copy_vec<T: Copy>(v: &Vec<T>) -> (r: Vec<T>)
    ensures
        r@ == v@,
{
    vstd::slice::slice_to_vec(v.as_slice())
}

/// Copies a vector of byte strings.
fn copy_byte_strings(v: &Vec<Vec<u8>>) -> (r: Vec<Vec<u8>>)
    ensures
        byte_strings(r@) == byte_strings(v@),
{
    let mut out: Vec<Vec<u8>> = Vec::new();
    let mut i: usize = 0;
    while i < v.len()
        invariant
            i <= v@.len(),
            out@.len() == i,
            forall|t: int| 0 <= t < i ==> (#[trigger] out@[t])@ == v@[t]@,
        decreases v@.len() - i,
    {
        out.push(copy_vec(&v[i]));
        i = i + 1;
    }
    assert(byte_strings(out@) =~= byte_strings(v@));
    out
}

impl GgufValue {
    /// A copy of the value.
    pub fn duplicate(&self) -> (r: GgufValue)
        ensures
            r@ == self@,
    {
        match self {
            GgufValue::U8(x) => GgufValue::U8(*x),
            GgufValue::I8(x) => GgufValue::I8(*x),
            GgufValue::U16(x) => GgufValue::U16(*x),
            GgufValue::I16(x) => GgufValue::I16(*x),
            GgufValue::U32(x) => GgufValue::U32(*x),
            GgufValue::I32(x) => GgufValue::I32(*x),
            GgufValue::U64(x) => GgufValue::U64(*x),
            GgufValue::I64(x) => GgufValue::I64(*x),
            GgufValue::F32(x) => GgufValue::F32(*x),
            GgufValue::F64(x) => GgufValue::F64(*x),
            GgufValue::Bool(x) => GgufValue::Bool(*x),
            GgufValue::String(x) => GgufValue::String(copy_vec(x)),
            GgufValue::ArrayU8(x) => GgufValue::ArrayU8(copy_vec(x)),
            GgufValue::ArrayI8(x) => GgufValue::ArrayI8(copy_vec(x)),
            GgufValue::ArrayU16(x) => GgufValue::ArrayU16(copy_vec(x)),
            GgufValue::ArrayI16(x) => GgufValue::ArrayI16(copy_vec(x)),
            GgufValue::ArrayU32(x) => GgufValue::ArrayU32(copy_vec(x)),
            GgufValue::ArrayI32(x) => GgufValue::ArrayI32(copy_vec(x)),
            GgufValue::ArrayU64(x) => GgufValue::ArrayU64(copy_vec(x)),
            GgufValue::ArrayI64(x) => GgufValue::ArrayI64(copy_vec(x)),
            GgufValue::ArrayF32(x) => GgufValue::ArrayF32(copy_vec(x)),
            GgufValue::ArrayF64(x) => GgufValue::ArrayF64(copy_vec(x)),
            GgufValue::ArrayBool(x) => GgufValue::ArrayBool(copy_vec(x)),
            GgufValue::ArrayString(x) => GgufValue::ArrayString(copy_byte_strings(x)),
        }
    }
}

/// Widens each element of an `i8` array.
fn widen_i8(a: &Vec<i8>) -> (r: Vec<i64>)
    ensures
        r@ == Seq::new(a@.len(), |i: int| a@[i] as i64),
{
    let mut out: Vec<i64> = Vec::new();
    let mut i: usize = 0;
    while i < a.len()
        invariant
            i <= a@.len(),
            out@ =~= Seq::new(i as nat, |t: int| a@[t] as i64),
        decreases a@.len() - i,
    {
        out.push(a[i] as i64);
        i = i + 1;
    }
    out
}

/// Widens each element of an `i16` array.
fn widen_i16(a: &Vec<i16>) -> (r: Vec<i64>)
    ensures
        r@ == Seq::new(a@.len(), |i: int| a@[i] as i64),
{
    let mut out: Vec<i64> = Vec::new();
    let mut i: usize = 0;
    while i < a.len()
        invariant
            i <= a@.len(),
            out@ =~= Seq::new(i as nat, |t: int| a@[t] as i64),
        decreases a@.len() - i,
    {
        out.push(a[i] as i64);
        i = i + 1;
    }
    out
}

/// Widens each element of an `i32` array.
fn widen_i32(a: &Vec<i32>) -> (r: Vec<i64>)
    ensures
        r@ == Seq::new(a@.len(), |i: int| a@[i] as i64),
{
    let mut out: Vec<i64> = Vec::new();
    let mut i: usize = 0;
    while i < a.len()
        invariant
            i <= a@.len(),
            out@ =~= Seq::new(i as nat, |t: int| a@[t] as i64),
        decreases a@.len() - i,
    {
        out.push(a[i] as i64);
        i = i + 1;
    }
    out
}

/// Widens each element of a `u8` array.
fn widen_u8(a: &Vec<u8>) -> (r: Vec<u64>)
    ensures
        r@ == Seq::new(a@.len(), |i: int| a@[i] as u64),
{
    let mut out: Vec<u64> = Vec::new();
    let mut i: usize = 0;
    while i < a.len()
        invariant
            i <= a@.len(),
            out@ =~= Seq::new(i as nat, |t: int| a@[t] as u64),
        decreases a@.len() - i,
    {
        out.push(a[i] as u64);
        i = i + 1;
    }
    out
}

/// Widens each element of a `u16` array.
fn widen_u16(a: &Vec<u16>) -> (r: Vec<u64>)
    ensures
        r@ == Seq::new(a@.len(), |i: int| a@[i] as u64),
{
    let mut out: Vec<u64> = Vec::new();
    let mut i: usize = 0;
    while i < a.len()
        invariant
            i <= a@.len(),
            out@ =~= Seq::new(i as nat, |t: int| a@[t] as u64),
        decreases a@.len() - i,
    {
        out.push(a[i] as u64);
        i = i + 1;
    }
    out
}

/// Widens each element of a `u32` array.
fn widen_u32(a: &Vec<u32>) -> (r: Vec<u64>)
    ensures
        r@ == Seq::new(a@.len(), |i: int| a@[i] as u64),
{
    let mut out: Vec<u64> = Vec::new();
    let mut i: usize = 0;
    while i < a.len()
        invariant
            i <= a@.len(),
            out@ =~= Seq::new(i as nat, |t: int| a@[t] as u64),
        decreases a@.len() - i,
    {
        out.push(a[i] as u64);
        i = i + 1;
    }
    out
}

/// Wraps an arbitrary GGUF metadata value (`None` when a lookup found
/// nothing).
#[derive(Debug, PartialEq, Eq)]
pub struct Value(pub Option<GgufValue>);

impl View for Value {
    type V = Option<ValueView>;

    open spec fn view(&self) -> Option<ValueView> {
        match self.0 {
            Some(v) => Some(v@),
            None => None,
        }
    }
}

impl Value {
    pub fn new(v: GgufValue) -> (r: Value)
        ensures
            r@ == Some(v@),
    {
        Value(Some(v))
    }

    /// A copy of the value.
    pub fn duplicate(&self) -> (r: Value)
        ensures
            r@ == self@,
    {
        match &self.0 {
            Some(v) => Value(Some(v.duplicate())),
            None => Value(None),
        }
    }

    /// Returns Value as a signed integer. If it is not a signed integer, returns 0.
    pub fn int_value(&self) -> (r: i64)
        ensures
            r == spec_int(self@),
    {
        match &self.0 {
            Some(GgufValue::I8(v)) => *v as i64,
            Some(GgufValue::I16(v)) => *v as i64,
            Some(GgufValue::I32(v)) => *v as i64,
            Some(GgufValue::I64(v)) => *v,
            _ => 0,
        }
    }

    /// Returns Value as a signed integer slice. If it is not one, returns an empty Vec.
    pub fn ints(&self) -> (r: Vec<i64>)
        ensures
            r@ == spec_ints(self@),
    {
        match &self.0 {
            Some(GgufValue::ArrayI8(v)) => widen_i8(v),
            Some(GgufValue::ArrayI16(v)) => widen_i16(v),
            Some(GgufValue::ArrayI32(v)) => widen_i32(v),
            Some(GgufValue::ArrayI64(v)) => copy_vec(v),
            _ => Vec::new(),
        }
    }

    /// Converts an unsigned integer value to u64. If not unsigned, returns 0.
    pub fn uint(&self) -> (r: u64)
        ensures
            r == spec_uint(self@),
    {
        match &self.0 {
            Some(GgufValue::U8(v)) => *v as u64,
            Some(GgufValue::U16(v)) => *v as u64,
            Some(GgufValue::U32(v)) => *v as u64,
            Some(GgufValue::U64(v)) => *v,
            _ => 0,
        }
    }

    /// Returns Value as an unsigned integer slice. If not one, returns an empty Vec.
    pub fn uints(&self) -> (r: Vec<u64>)
        ensures
            r@ == spec_uints(self@),
    {
        match &self.0 {
            Some(GgufValue::ArrayU8(v)) => widen_u8(v),
            Some(GgufValue::ArrayU16(v)) => widen_u16(v),
            Some(GgufValue::ArrayU32(v)) => widen_u32(v),
            Some(GgufValue::ArrayU64(v)) => copy_vec(v),
            _ => Vec::new(),
        }
    }

    /// Returns Value as a bool. If it is not a bool, returns false.
    pub fn bool(&self) -> (r: bool)
        ensures
            r == spec_bool(self@),
    {
        match &self.0 {
            Some(GgufValue::Bool(v)) => *v,
            _ => false,
        }
    }

    /// Returns Value as a bool slice. If not one, returns an empty Vec.
    pub fn bools(&self) -> (r: Vec<bool>)
        ensures
            r@ == spec_bools(self@),
    {
        match &self.0 {
            Some(GgufValue::ArrayBool(v)) => copy_vec(v),
            _ => Vec::new(),
        }
    }

    /// Returns Value as the raw string bytes, losslessly. If it is not a
    /// string, returns an empty slice.
    pub fn string_bytes(&self) -> (r: &[u8])
        ensures
            r@ == spec_string_bytes(self@),
    {
        match &self.0 {
            Some(GgufValue::String(v)) => v.as_slice(),
            _ => &[],
        }
    }

    /// Returns Value as a string, decoding the raw bytes as UTF-8 lossily.
    /// If it is not a string, returns "".
    pub fn string(&self) -> (r: String)
        ensures
            encode_utf8(r@) == decode_lossy(spec_string_bytes(self@)),
    {
        lossy_string(self.string_bytes())
    }

    /// Returns Value as a slice of raw string byte vectors, losslessly. If
    /// not a string array, returns an empty slice.
    pub fn strings_bytes(&self) -> (r: &[Vec<u8>])
        ensures
            byte_strings(r@) == spec_strings_bytes(self@),
    {
        match &self.0 {
            Some(GgufValue::ArrayString(v)) => v.as_slice(),
            _ => {
                let r: &[Vec<u8>] = &[];
                assert(byte_strings(r@) =~= Seq::<Seq<u8>>::empty());
                r
            },
        }
    }

    /// Returns Value as a string slice, each element decoded as UTF-8
    /// lossily. If not one, returns an empty Vec.
    pub fn strings(&self) -> (r: Vec<String>)
        ensures
            r@.len() == spec_strings_bytes(self@).len(),
            forall|i: int|
                0 <= i < r@.len() ==> encode_utf8((#[trigger] r@[i])@) == decode_lossy(spec_strings_bytes(self@)[i]),
    {
        let src = self.strings_bytes();
        let mut out: Vec<String> = Vec::new();
        let mut i: usize = 0;
        while i < src.len()
            invariant
                i <= src@.len(),
                byte_strings(src@) == spec_strings_bytes(self@),
                out@.len() == i,
                forall|t: int|
                    0 <= t < i ==> encode_utf8((#[trigger] out@[t])@) == decode_lossy(spec_strings_bytes(self@)[t]),
            decreases src@.len() - i,
        {
            assert(byte_strings(src@)[i as int] == src@[i as int]@);
            out.push(lossy_string(src[i].as_slice()));
            i = i + 1;
        }
        out
    }
}

/// A single GGUF metadata key-value pair.
#[derive(Debug, PartialEq, Eq)]
pub struct KeyValue {
    pub key: String,
    pub value: Value,
}

impl KeyValue {
    /// The key's UTF-8 bytes.
    pub open spec fn key_bytes(&self) -> Seq<u8> {
        encode_utf8(self.key@)
    }

    /// Reports whether the KeyValue has a non-empty key and a set value.
    pub fn valid(&self) -> (r: bool)
        ensures
            r == (self.key@.len() > 0 && self.value@ is Some),
    {
        !self.key.as_str().is_empty() && self.value.0.is_some()
    }

    /// A copy of the pair.
    pub fn duplicate(&self) -> (r: KeyValue)
        ensures
            r.key@ == self.key@,
            r.value@ == self.value@,
    {
        KeyValue { key: self.key.clone(), value: self.value.duplicate() }
    }

    pub fn int_value(&self) -> (r: i64)
        ensures
            r == spec_int(self.value@),
    {
        self.value.int_value()
    }

    pub fn ints(&self) -> (r: Vec<i64>)
        ensures
            r@ == spec_ints(self.value@),
    {
        self.value.ints()
    }

    pub fn uint(&self) -> (r: u64)
        ensures
            r == spec_uint(self.value@),
    {
        self.value.uint()
    }

    pub fn uints(&self) -> (r: Vec<u64>)
        ensures
            r@ == spec_uints(self.value@),
    {
        self.value.uints()
    }

    pub fn bool(&self) -> (r: bool)
        ensures
            r == spec_bool(self.value@),
    {
        self.value.bool()
    }

    pub fn bools(&self) -> (r: Vec<bool>)
        ensures
            r@ == spec_bools(self.value@),
    {
        self.value.bools()
    }

    pub fn string(&self) -> (r: String)
        ensures
            encode_utf8(r@) == decode_lossy(spec_string_bytes(self.value@)),
    {
        self.value.string()
    }

    pub fn string_bytes(&self) -> (r: &[u8])
        ensures
            r@ == spec_string_bytes(self.value@),
    {
        self.value.string_bytes()
    }

    pub fn strings(&self) -> (r: Vec<String>)
        ensures
            r@.len() == spec_strings_bytes(self.value@).len(),
            forall|i: int|
                0 <= i < r@.len() ==> encode_utf8((#[trigger] r@[i])@) == decode_lossy(
                    spec_strings_bytes(self.value@)[i],
                ),
    {
        self.value.strings()
    }

    pub fn strings_bytes(&self) -> (r: &[Vec<u8>])
        ensures
            byte_strings(r@) == spec_strings_bytes(self.value@),
    {
        self.value.strings_bytes()
    }
}

} // verus!
