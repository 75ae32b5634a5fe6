//! Tensor descriptors and tensor element formats.

use vstd::prelude::*;

verus! {

/// Identifies the quantization or numeric format of a tensor. A newtype over
/// the raw `u32` read from the file, so that unknown values need no
/// fallible conversion.
#[derive(Debug, Clone, Copy, PartialEq, Eq, Hash, Default)]
pub struct TensorType(pub u32);

/// Elements per block of a tensor type.
pub open spec fn spec_block_size(t: u32) -> int {
    if t == 0 || t == 1 || t == 24 || t == 25 || t == 26 || t == 27 || t == 28 || t == 30 {
        1
    } else if t == 2 || t == 3 || t == 6 || t == 7 || t == 8 || t == 9 || t == 20 {
        32
    } else {
        256
    }
}

/// Bytes per block of a tensor type (0 for types the reader does not size).
pub open spec fn spec_type_size(t: u32) -> int {
    let bs = spec_block_size(t);
    if t == 0 { 4 }
    else if t == 1 { 2 }
    else if t == 2 { 2 + bs / 2 }
    else if t == 3 { 2 + 2 + bs / 2 }
    else if t == 6 { 2 + 4 + bs / 2 }
    else if t == 7 { 2 + 2 + 4 + bs / 2 }
    else if t == 8 { 2 + bs }
    else if t == 9 { 2 + 2 + bs }
    else if t == 10 { bs / 16 + bs / 4 + 2 + 2 }
    else if t == 11 { bs / 8 + bs / 4 + 12 + 2 }
    else if t == 12 { 2 + 2 + 12 + bs / 2 }
    else if t == 13 { 2 + 2 + 12 + bs / 8 + bs / 2 }
    else if t == 14 { bs / 2 + bs / 4 + bs / 16 + 2 }
    else if t == 15 { 4 + bs + 2 * bs / 16 }
    else if t == 16 { 2 + 2 * bs / 8 }
    else if t == 17 { 2 + 2 * bs / 8 + bs / 32 }
    else if t == 18 { 2 + bs / 4 + bs / 8 }
    else if t == 19 { 2 + bs / 8 + bs / 16 }
    else if t == 20 { 2 + bs / 2 }
    else if t == 21 { 2 + bs / 4 + bs / 8 + bs / 32 + 4 }
    else if t == 22 { 2 + bs / 4 + bs / 16 }
    else if t == 23 { 2 + 2 + bs / 2 + bs / 64 }
    else if t == 24 { 1 }
    else if t == 25 { 2 }
    else if t == 26 { 4 }
    else if t == 27 { 8 }
    else if t == 28 { 8 }
    else if t == 29 { bs / 8 + bs / 16 + bs / 32 }
    else if t == 30 { 2 }
    else { 0 }
}

/// Lower-case name of a tensor type ("unknown" past the known range).
pub open spec fn spec_type_name(t: u32) -> Seq<char> {
    match t {
        0 => "f32"@,
        1 => "f16"@,
        2 => "q4_0"@,
        3 => "q4_1"@,
        4 => "q4_2"@,
        5 => "q4_3"@,
        6 => "q5_0"@,
        7 => "q5_1"@,
        8 => "q8_0"@,
        9 => "q8_1"@,
        10 => "q2_k"@,
        11 => "q3_k"@,
        12 => "q4_k"@,
        13 => "q5_k"@,
        14 => "q6_k"@,
        15 => "q8_k"@,
        16 => "iq2_xxs"@,
        17 => "iq2_xs"@,
        18 => "iq3_xxs"@,
        19 => "iq1_s"@,
        20 => "iq4_nl"@,
        21 => "iq3_s"@,
        22 => "iq2_s"@,
        23 => "iq4_xs"@,
        24 => "i8"@,
        25 => "i16"@,
        26 => "i32"@,
        27 => "i64"@,
        28 => "f64"@,
        29 => "iq1_m"@,
        30 => "bf16"@,
        31 => "q4_0_4_4"@,
        32 => "q4_0_4_8"@,
        33 => "q4_0_8_8"@,
        34 => "tq1_0"@,
        35 => "tq2_0"@,
        36 => "iq4_nl_4_4"@,
        37 => "iq4_nl_4_8"@,
        38 => "iq4_nl_8_8"@,
        _ => "unknown"@,
    }
}

/// Upper-case name of a tensor type, as used for quantization labels.
pub open spec fn spec_type_label(t: u32) -> Seq<char> {
    match t {
        0 => "F32"@,
        1 => "F16"@,
        2 => "Q4_0"@,
        3 => "Q4_1"@,
        4 => "Q4_2"@,
        5 => "Q4_3"@,
        6 => "Q5_0"@,
        7 => "Q5_1"@,
        8 => "Q8_0"@,
        9 => "Q8_1"@,
        10 => "Q2_K"@,
        11 => "Q3_K"@,
        12 => "Q4_K"@,
        13 => "Q5_K"@,
        14 => "Q6_K"@,
        15 => "Q8_K"@,
        16 => "IQ2_XXS"@,
        17 => "IQ2_XS"@,
        18 => "IQ3_XXS"@,
        19 => "IQ1_S"@,
        20 => "IQ4_NL"@,
        21 => "IQ3_S"@,
        22 => "IQ2_S"@,
        23 => "IQ4_XS"@,
        24 => "I8"@,
        25 => "I16"@,
        26 => "I32"@,
        27 => "I64"@,
        28 => "F64"@,
        29 => "IQ1_M"@,
        30 => "BF16"@,
        31 => "Q4_0_4_4"@,
        32 => "Q4_0_4_8"@,
        33 => "Q4_0_8_8"@,
        34 => "TQ1_0"@,
        35 => "TQ2_0"@,
        36 => "IQ4_NL_4_4"@,
        37 => "IQ4_NL_4_8"@,
        38 => "IQ4_NL_8_8"@,
        _ => "UNKNOWN"@,
    }
}

#[allow(non_snake_case)]
impl TensorType {
    // The well-known formats, by their conventional names.

    pub fn F32() -> (r: TensorType)
        ensures
            r.0 == 0,
    {
        TensorType(0)
    }
    pub fn F16() -> (r: TensorType)
        ensures
            r.0 == 1,
    {
        TensorType(1)
    }
    pub fn Q4_0() -> (r: TensorType)
        ensures
            r.0 == 2,
    {
        TensorType(2)
    }
    pub fn Q4_1() -> (r: TensorType)
        ensures
            r.0 == 3,
    {
        TensorType(3)
    }
    pub fn Q5_0() -> (r: TensorType)
        ensures
            r.0 == 6,
    {
        TensorType(6)
    }
    pub fn Q5_1() -> (r: TensorType)
        ensures
            r.0 == 7,
    {
        TensorType(7)
    }
    pub fn Q8_0() -> (r: TensorType)
        ensures
            r.0 == 8,
    {
        TensorType(8)
    }
    pub fn Q8_1() -> (r: TensorType)
        ensures
            r.0 == 9,
    {
        TensorType(9)
    }
    pub fn Q2_K() -> (r: TensorType)
        ensures
            r.0 == 10,
    {
        TensorType(10)
    }
    pub fn Q3_K() -> (r: TensorType)
        ensures
            r.0 == 11,
    {
        TensorType(11)
    }
    pub fn Q4_K() -> (r: TensorType)
        ensures
            r.0 == 12,
    {
        TensorType(12)
    }
    pub fn Q5_K() -> (r: TensorType)
        ensures
            r.0 == 13,
    {
        TensorType(13)
    }
    pub fn Q6_K() -> (r: TensorType)
        ensures
            r.0 == 14,
    {
        TensorType(14)
    }
    pub fn Q8_K() -> (r: TensorType)
        ensures
            r.0 == 15,
    {
        TensorType(15)
    }
    pub fn I8() -> (r: TensorType)
        ensures
            r.0 == 24,
    {
        TensorType(24)
    }
    pub fn I16() -> (r: TensorType)
        ensures
            r.0 == 25,
    {
        TensorType(25)
    }
    pub fn I32() -> (r: TensorType)
        ensures
            r.0 == 26,
    {
        TensorType(26)
    }
    pub fn I64() -> (r: TensorType)
        ensures
            r.0 == 27,
    {
        TensorType(27)
    }
    pub fn F64() -> (r: TensorType)
        ensures
            r.0 == 28,
    {
        TensorType(28)
    }
    pub fn BF16() -> (r: TensorType)
        ensures
            r.0 == 30,
    {
        TensorType(30)
    }

    /// Bytes per block.
    pub fn type_size(&self) -> (r: i64)
        ensures
            r == spec_type_size(self.0),
    {
        let bs = self.block_size();
        match self.0 {
            0 => 4,
            1 => 2,
            2 => 2 + bs / 2,
            3 => 2 + 2 + bs / 2,
            6 => 2 + 4 + bs / 2,
            7 => 2 + 2 + 4 + bs / 2,
            8 => 2 + bs,
            9 => 2 + 2 + bs,
            10 => bs / 16 + bs / 4 + 2 + 2,
            11 => bs / 8 + bs / 4 + 12 + 2,
            12 => 2 + 2 + 12 + bs / 2,
            13 => 2 + 2 + 12 + bs / 8 + bs / 2,
            14 => bs / 2 + bs / 4 + bs / 16 + 2,
            15 => 4 + bs + 2 * bs / 16,
            16 => 2 + 2 * bs / 8,
            17 => 2 + 2 * bs / 8 + bs / 32,
            18 => 2 + bs / 4 + bs / 8,
            19 => 2 + bs / 8 + bs / 16,
            20 => 2 + bs / 2,
            21 => 2 + bs / 4 + bs / 8 + bs / 32 + 4,
            22 => 2 + bs / 4 + bs / 16,
            23 => 2 + 2 + bs / 2 + bs / 64,
            24 => 1,
            25 => 2,
            26 => 4,
            27 => 8,
            28 => 8,
            29 => bs / 8 + bs / 16 + bs / 32,
            30 => 2,
            _ => 0,
        }
    }

    /// Elements per block.
    pub fn block_size(&self) -> (r: i64)
        ensures
            r == spec_block_size(self.0),
    {
        match self.0 {
            0 | 1 | 24 | 25 | 26 | 27 | 28 | 30 => 1,
            2 | 3 | 6 | 7 | 8 | 9 | 20 => 32,
            _ => 256,
        }
    }

    /// The type's lower-case name ("unknown" for unrecognized values).
    pub fn name(&self) -> (r: &'static str)
        ensures
            r@ == spec_type_name(self.0),
    {
        match self.0 {
            0 => "f32",
            1 => "f16",
            2 => "q4_0",
            3 => "q4_1",
            4 => "q4_2",
            5 => "q4_3",
            6 => "q5_0",
            7 => "q5_1",
            8 => "q8_0",
            9 => "q8_1",
            10 => "q2_k",
            11 => "q3_k",
            12 => "q4_k",
            13 => "q5_k",
            14 => "q6_k",
            15 => "q8_k",
            16 => "iq2_xxs",
            17 => "iq2_xs",
            18 => "iq3_xxs",
            19 => "iq1_s",
            20 => "iq4_nl",
            21 => "iq3_s",
            22 => "iq2_s",
            23 => "iq4_xs",
            24 => "i8",
            25 => "i16",
            26 => "i32",
            27 => "i64",
            28 => "f64",
            29 => "iq1_m",
            30 => "bf16",
            31 => "q4_0_4_4",
            32 => "q4_0_4_8",
            33 => "q4_0_8_8",
            34 => "tq1_0",
            35 => "tq2_0",
            36 => "iq4_nl_4_4",
            37 => "iq4_nl_4_8",
            38 => "iq4_nl_8_8",
            _ => "unknown",
        }
    }

    /// The type's upper-case name, as used for quantization labels.
    pub fn label(&self) -> (r: &'static str)
        ensures
            r@ == spec_type_label(self.0),
    {
        match self.0 {
            0 => "F32",
            1 => "F16",
            2 => "Q4_0",
            3 => "Q4_1",
            4 => "Q4_2",
            5 => "Q4_3",
            6 => "Q5_0",
            7 => "Q5_1",
            8 => "Q8_0",
            9 => "Q8_1",
            10 => "Q2_K",
            11 => "Q3_K",
            12 => "Q4_K",
            13 => "Q5_K",
            14 => "Q6_K",
            15 => "Q8_K",
            16 => "IQ2_XXS",
            17 => "IQ2_XS",
            18 => "IQ3_XXS",
            19 => "IQ1_S",
            20 => "IQ4_NL",
            21 => "IQ3_S",
            22 => "IQ2_S",
            23 => "IQ4_XS",
            24 => "I8",
            25 => "I16",
            26 => "I32",
            27 => "I64",
            28 => "F64",
            29 => "IQ1_M",
            30 => "BF16",
            31 => "Q4_0_4_4",
            32 => "Q4_0_4_8",
            33 => "Q4_0_8_8",
            34 => "TQ1_0",
            35 => "TQ2_0",
            36 => "IQ4_NL_4_4",
            37 => "IQ4_NL_4_8",
            38 => "IQ4_NL_8_8",
            _ => "UNKNOWN",
        }
    }
}

/// Product of the tensor dimensions, each read as `i64`.
pub open spec fn dims_product(shape: Seq<u64>) -> int
    decreases shape.len(),
{
    if shape.len() == 0 {
        1
    } else {
        dims_product(shape.drop_last()) * (shape.last() as i64)
    }
}

/// Multiplying the dimensions one by one never leaves the `i64` range.
pub open spec fn dims_fit(shape: Seq<u64>) -> bool {
    forall|k: int|
        0 <= k <= shape.len() ==> i64::MIN <= #[trigger] dims_product(shape.subrange(0, k)) <= i64::MAX
}

/// Integer division rounding toward zero.
pub open spec fn div_toward_zero(a: int, b: int) -> int {
    if a >= 0 {
        a / b
    } else {
        -((-a) / b)
    }
}

/// `x` clamped to the `i64` range.
pub open spec fn clamp_i64(x: int) -> int {
    if x < i64::MIN {
        i64::MIN as int
    } else if x > i64::MAX {
        i64::MAX as int
    } else {
        x
    }
}

/// Byte size of `n` elements of type `t`: `n` times bytes-per-block over
/// elements-per-block, rounded toward zero and saturated to `i64`.
pub open spec fn spec_num_bytes(n: int, t: u32) -> int {
    clamp_i64(div_toward_zero(n * spec_type_size(t), spec_block_size(t)))
}

/// Tensor name, shape, type, and data offset (relative to the tensor-data
/// section start).
#[derive(Debug, PartialEq, Eq)]
pub struct TensorInfo {
    pub name: String,
    pub offset: u64,
    pub shape: Vec<u64>,
    pub tensor_type: TensorType,
}

impl Default for TensorInfo {
    fn default() -> (r: TensorInfo)
        ensures
            r.name@.len() == 0,
            r.offset == 0,
            r.shape@.len() == 0,
            r.tensor_type.0 == 0,
    {
        TensorInfo::empty()
    }
}

impl TensorInfo {
    /// Element count of the tensor.
    pub open spec fn spec_num_values(&self) -> int {
        dims_product(self.shape@)
    }

    /// Byte size of the tensor.
    pub open spec fn spec_num_bytes(&self) -> int {
        spec_num_bytes(self.spec_num_values(), self.tensor_type.0)
    }

    /// An empty descriptor (what a failed lookup returns).
    pub fn empty() -> (r: TensorInfo)
        ensures
            r.name@.len() == 0,
            r.offset == 0,
            r.shape@.len() == 0,
            r.tensor_type.0 == 0,
    {
        TensorInfo { name: String::new(), offset: 0, shape: Vec::new(), tensor_type: TensorType(0) }
    }

    /// A copy of the descriptor.
    pub fn duplicate(&self) -> (r: TensorInfo)
        ensures
            r.name@ == self.name@,
            r.offset == self.offset,
            r.shape@ == self.shape@,
            r.tensor_type == self.tensor_type,
    {
        TensorInfo {
            name: self.name.clone(),
            offset: self.offset,
            shape: vstd::slice::slice_to_vec(self.shape.as_slice()),
            tensor_type: self.tensor_type,
        }
    }

    /// Reports whether the TensorInfo has a non-empty name and non-zero byte size.
    pub fn valid(&self) -> (r: bool)
        requires
            dims_fit(self.shape@),
        ensures
            r == (self.name@.len() > 0 && self.spec_num_bytes() > 0),
    {
        !self.name.as_str().is_empty() && self.num_bytes() > 0
    }

    /// Whether multiplying out the shape stays in the `i64` range, which
    /// `num_values` and `num_bytes` need.
    pub fn shape_fits(&self) -> (r: bool)
        ensures
            r == dims_fit(self.shape@),
    {
        let mut n: i64 = 1;
        let mut i: usize = 0;
        assert(self.shape@.subrange(0, 0) =~= Seq::<u64>::empty());
        while i < self.shape.len()
            invariant
                i <= self.shape@.len(),
                n == dims_product(self.shape@.subrange(0, i as int)),
                forall|k: int| 0 <= k <= i ==> i64::MIN <= #[trigger] dims_product(self.shape@.subrange(0, k)) <= i64::MAX,
            decreases self.shape@.len() - i,
        {
            assert(self.shape@.subrange(0, i + 1).drop_last() =~= self.shape@.subrange(0, i as int));
            let d = self.shape[i] as i64;
            let a = n as i128;
            let b = d as i128;
            assert(-0x8000_0000_0000_0000 * 0x8000_0000_0000_0000 <= a * b <= 0x8000_0000_0000_0000 * 0x8000_0000_0000_0000)
                by (nonlinear_arith)
                requires
                    -0x8000_0000_0000_0000 <= a <= 0x7fff_ffff_ffff_ffff,
                    -0x8000_0000_0000_0000 <= b <= 0x7fff_ffff_ffff_ffff,
            ;
            let wide = a * b;
            if wide < i64::MIN as i128 || wide > i64::MAX as i128 {
                assert(!(i64::MIN <= dims_product(self.shape@.subrange(0, i + 1)) <= i64::MAX));
                return false;
            }
            n = wide as i64;
            i = i + 1;
        }
        assert(self.shape@.subrange(0, self.shape@.len() as int) =~= self.shape@);
        true
    }

    /// Returns the total number of scalar elements in the tensor.
    pub fn num_values(&self) -> (r: i64)
        requires
            dims_fit(self.shape@),
        ensures
            r == self.spec_num_values(),
    {
        let mut n: i64 = 1;
        let mut i: usize = 0;
        while i < self.shape.len()
            invariant
                i <= self.shape@.len(),
                dims_fit(self.shape@),
                n == dims_product(self.shape@.subrange(0, i as int)),
            decreases self.shape@.len() - i,
        {
            proof {
                assert(self.shape@.subrange(0, i + 1).drop_last() =~= self.shape@.subrange(0, i as int));
                assert(i64::MIN <= dims_product(self.shape@.subrange(0, i + 1)) <= i64::MAX);
            }
            n = n * (self.shape[i] as i64);
            i = i + 1;
        }
        assert(self.shape@.subrange(0, self.shape@.len() as int) =~= self.shape@);
        n
    }

    /// Returns the number of bytes in the tensor.
    pub fn num_bytes(&self) -> (r: i64)
        requires
            dims_fit(self.shape@),
        ensures
            r == self.spec_num_bytes(),
    {
        let n = self.num_values() as i128;
        let ts = self.tensor_type.type_size() as i128;
        let bs = self.tensor_type.block_size() as i128;
        assert(-0x8000_0000_0000_0000 <= n <= 0x7fff_ffff_ffff_ffff);
        assert(0 <= ts <= 300);
        assert(-0x8000_0000_0000_0000 * 300 <= n * ts <= 0x7fff_ffff_ffff_ffff * 300) by (nonlinear_arith)
            requires
                -0x8000_0000_0000_0000 <= n <= 0x7fff_ffff_ffff_ffff,
                0 <= ts <= 300,
        ;
        let p = n * ts;
        let q: i128 = if p >= 0 {
            p / bs
        } else {
            -((-p) / bs)
        };
        if q < i64::MIN as i128 {
            i64::MIN
        } else if q > i64::MAX as i128 {
            i64::MAX
        } else {
            q as i64
        }
    }
}

/// `c` is an ASCII decimal digit.
pub open spec fn is_digit(c: char) -> bool {
    '0' <= c && c <= '9'
}

/// Value of an ASCII decimal digit.
pub open spec fn digit_value(c: char) -> int {
    c as int - '0' as int
}

/// `s` is made of decimal digits only.
pub open spec fn all_digits(s: Seq<char>) -> bool {
    s.len() > 0 && forall|i: int| 0 <= i < s.len() ==> is_digit(#[trigger] s[i])
}

/// The number the decimal digits `s` spell.
pub open spec fn decimal_value(s: Seq<char>) -> int
    decreases s.len(),
{
    if s.len() == 0 {
        0
    } else {
        decimal_value(s.drop_last()) * 10 + digit_value(s.last())
    }
}

/// The bit width that the name of a quantized type announces: the digit
/// after `q` (`q5_k`: 5) or after `iq` (`iq2_xs`: 2).
pub open spec fn quant_bits(name: Seq<char>) -> Option<int> {
    if name.len() >= 2 && name[0] == 'q' && is_digit(name[1]) {
        Some(digit_value(name[1]))
    } else if name.len() >= 3 && name[0] == 'i' && name[1] == 'q' && is_digit(name[2]) {
        Some(digit_value(name[2]))
    } else {
        None
    }
}

/// The width in bits that the name of a plain (unquantized) type spells:
/// `f32`, `i16`, `bf16` and the like.
pub open spec fn plain_bits(name: Seq<char>) -> Option<int> {
    if name.len() >= 2 && (name[0] == 'f' || name[0] == 'i') && all_digits(name.subrange(1, name.len() as int)) {
        Some(decimal_value(name.subrange(1, name.len() as int)))
    } else if name.len() >= 3 && name[0] == 'b' && name[1] == 'f' && all_digits(
        name.subrange(2, name.len() as int),
    ) {
        Some(decimal_value(name.subrange(2, name.len() as int)))
    } else {
        None
    }
}

/// Law: a block holds what the type's name says. A plain type stores one
/// element per block in exactly the bits its name gives (`f32`: 4 bytes),
/// and a quantized `qN`/`iqN` type stores at least `N` and fewer than
/// `N + 2` bits per element, the rest being the block's scales and minima
/// (`q5_k`: 176 bytes for 256 elements, 5.5 bits each).
pub proof fn lemma_type_size_matches_name(t: u32)
    requires
        spec_type_size(t) > 0,
    ensures
        plain_bits(spec_type_name(t)) matches Some(w) ==> spec_block_size(t) == 1 && 8 * spec_type_size(t) == w,
        quant_bits(spec_type_name(t)) matches Some(w) ==> w * spec_block_size(t) <= 8 * spec_type_size(t) < (w
            + 2) * spec_block_size(t),
{
    let n = spec_type_name(t);
    if t == 0 {
        reveal_strlit("f32");
        assert(n =~= "f32"@);
        reveal_strlit("32");
        assert(n.subrange(1, n.len() as int) =~= "32"@);
        assert(decimal_value("32"@) == 32) by {
            reveal_with_fuel(decimal_value, 3);
            assert("32"@.drop_last().drop_last() =~= Seq::<char>::empty());
        }
    } else if t == 1 {
        reveal_strlit("f16");
        assert(n =~= "f16"@);
        reveal_strlit("16");
        assert(n.subrange(1, n.len() as int) =~= "16"@);
        assert(decimal_value("16"@) == 16) by {
            reveal_with_fuel(decimal_value, 3);
            assert("16"@.drop_last().drop_last() =~= Seq::<char>::empty());
        }
    } else if t == 2 {
        reveal_strlit("q4_0");
        assert(n =~= "q4_0"@);
    } else if t == 3 {
        reveal_strlit("q4_1");
        assert(n =~= "q4_1"@);
    } else if t == 4 {
        reveal_strlit("q4_2");
        assert(n =~= "q4_2"@);
    } else if t == 5 {
        reveal_strlit("q4_3");
        assert(n =~= "q4_3"@);
    } else if t == 6 {
        reveal_strlit("q5_0");
        assert(n =~= "q5_0"@);
    } else if t == 7 {
        reveal_strlit("q5_1");
        assert(n =~= "q5_1"@);
    } else if t == 8 {
        reveal_strlit("q8_0");
        assert(n =~= "q8_0"@);
    } else if t == 9 {
        reveal_strlit("q8_1");
        assert(n =~= "q8_1"@);
    } else if t == 10 {
        reveal_strlit("q2_k");
        assert(n =~= "q2_k"@);
    } else if t == 11 {
        reveal_strlit("q3_k");
        assert(n =~= "q3_k"@);
    } else if t == 12 {
        reveal_strlit("q4_k");
        assert(n =~= "q4_k"@);
    } else if t == 13 {
        reveal_strlit("q5_k");
        assert(n =~= "q5_k"@);
    } else if t == 14 {
        reveal_strlit("q6_k");
        assert(n =~= "q6_k"@);
    } else if t == 15 {
        reveal_strlit("q8_k");
        assert(n =~= "q8_k"@);
    } else if t == 16 {
        reveal_strlit("iq2_xxs");
        assert(n =~= "iq2_xxs"@);
    } else if t == 17 {
        reveal_strlit("iq2_xs");
        assert(n =~= "iq2_xs"@);
    } else if t == 18 {
        reveal_strlit("iq3_xxs");
        assert(n =~= "iq3_xxs"@);
    } else if t == 19 {
        reveal_strlit("iq1_s");
        assert(n =~= "iq1_s"@);
    } else if t == 20 {
        reveal_strlit("iq4_nl");
        assert(n =~= "iq4_nl"@);
    } else if t == 21 {
        reveal_strlit("iq3_s");
        assert(n =~= "iq3_s"@);
    } else if t == 22 {
        reveal_strlit("iq2_s");
        assert(n =~= "iq2_s"@);
    } else if t == 23 {
        reveal_strlit("iq4_xs");
        assert(n =~= "iq4_xs"@);
    } else if t == 24 {
        reveal_strlit("i8");
        assert(n =~= "i8"@);
        reveal_strlit("8");
        assert(n.subrange(1, n.len() as int) =~= "8"@);
        assert(decimal_value("8"@) == 8) by {
            reveal_with_fuel(decimal_value, 3);
            assert("8"@.drop_last() =~= Seq::<char>::empty());
        }
    } else if t == 25 {
        reveal_strlit("i16");
        assert(n =~= "i16"@);
        reveal_strlit("16");
        assert(n.subrange(1, n.len() as int) =~= "16"@);
        assert(decimal_value("16"@) == 16) by {
            reveal_with_fuel(decimal_value, 3);
            assert("16"@.drop_last().drop_last() =~= Seq::<char>::empty());
        }
    } else if t == 26 {
        reveal_strlit("i32");
        assert(n =~= "i32"@);
        reveal_strlit("32");
        assert(n.subrange(1, n.len() as int) =~= "32"@);
        assert(decimal_value("32"@) == 32) by {
            reveal_with_fuel(decimal_value, 3);
            assert("32"@.drop_last().drop_last() =~= Seq::<char>::empty());
        }
    } else if t == 27 {
        reveal_strlit("i64");
        assert(n =~= "i64"@);
        reveal_strlit("64");
        assert(n.subrange(1, n.len() as int) =~= "64"@);
        assert(decimal_value("64"@) == 64) by {
            reveal_with_fuel(decimal_value, 3);
            assert("64"@.drop_last().drop_last() =~= Seq::<char>::empty());
        }
    } else if t == 28 {
        reveal_strlit("f64");
        assert(n =~= "f64"@);
        reveal_strlit("64");
        assert(n.subrange(1, n.len() as int) =~= "64"@);
        assert(decimal_value("64"@) == 64) by {
            reveal_with_fuel(decimal_value, 3);
            assert("64"@.drop_last().drop_last() =~= Seq::<char>::empty());
        }
    } else if t == 29 {
        reveal_strlit("iq1_m");
        assert(n =~= "iq1_m"@);
    } else if t == 30 {
        reveal_strlit("bf16");
        assert(n =~= "bf16"@);
        reveal_strlit("16");
        assert(n.subrange(2, n.len() as int) =~= "16"@);
        assert(decimal_value("16"@) == 16) by {
            reveal_with_fuel(decimal_value, 3);
            assert("16"@.drop_last().drop_last() =~= Seq::<char>::empty());
        }
    }
}

/// The names of the sized types, revealed.
proof fn lemma_sized_type_names(t: u32)
    requires
        spec_type_size(t) > 0,
    ensures
        quant_bits(spec_type_name(t)) == Some(4int) && spec_type_name(t)[0] == 'q' ==> t == 2 || t == 3 || t == 12,
        quant_bits(spec_type_name(t)) == Some(5int) && spec_type_name(t)[0] == 'q' ==> t == 6 || t == 7 || t == 13,
        spec_type_name(t).len() == 4 && spec_type_name(t)[0] == 'q' && spec_type_name(t)[3] == '0' ==> t == 2 || t
            == 6 || t == 8,
        spec_type_name(t).len() == 4 && spec_type_name(t)[0] == 'q' && spec_type_name(t)[3] == '1' ==> t == 3 || t
            == 7 || t == 9,
{
    reveal_strlit("f32");
    reveal_strlit("f16");
    reveal_strlit("q4_0");
    reveal_strlit("q4_1");
    reveal_strlit("q4_2");
    reveal_strlit("q4_3");
    reveal_strlit("q5_0");
    reveal_strlit("q5_1");
    reveal_strlit("q8_0");
    reveal_strlit("q8_1");
    reveal_strlit("q2_k");
    reveal_strlit("q3_k");
    reveal_strlit("q4_k");
    reveal_strlit("q5_k");
    reveal_strlit("q6_k");
    reveal_strlit("q8_k");
    reveal_strlit("iq2_xxs");
    reveal_strlit("iq2_xs");
    reveal_strlit("iq3_xxs");
    reveal_strlit("iq1_s");
    reveal_strlit("iq4_nl");
    reveal_strlit("iq3_s");
    reveal_strlit("iq2_s");
    reveal_strlit("iq4_xs");
    reveal_strlit("i8");
    reveal_strlit("i16");
    reveal_strlit("i32");
    reveal_strlit("i64");
    reveal_strlit("f64");
    reveal_strlit("iq1_m");
    reveal_strlit("bf16");
}

/// Law: a 5-bit `q5*` format is its 4-bit `q4*` counterpart (same name
/// after the digit) with one extra plane of high bits: one bit per
/// element, `block_size / 8` bytes per block, and nothing else.
pub proof fn lemma_fifth_bit_plane(t4: u32, t5: u32)
    requires
        spec_type_size(t4) > 0,
        spec_type_size(t5) > 0,
        spec_type_name(t4)[0] == 'q' && quant_bits(spec_type_name(t4)) == Some(4int),
        spec_type_name(t5)[0] == 'q' && quant_bits(spec_type_name(t5)) == Some(5int),
        spec_type_name(t4).subrange(2, spec_type_name(t4).len() as int) == spec_type_name(t5).subrange(
            2,
            spec_type_name(t5).len() as int,
        ),
    ensures
        spec_block_size(t5) == spec_block_size(t4),
        spec_type_size(t5) == spec_type_size(t4) + spec_block_size(t4) / 8,
{
    lemma_sized_type_names(t4);
    lemma_sized_type_names(t5);
    reveal_strlit("f32");
    reveal_strlit("f16");
    reveal_strlit("q4_0");
    reveal_strlit("q4_1");
    reveal_strlit("q4_2");
    reveal_strlit("q4_3");
    reveal_strlit("q5_0");
    reveal_strlit("q5_1");
    reveal_strlit("q8_0");
    reveal_strlit("q8_1");
    reveal_strlit("q2_k");
    reveal_strlit("q3_k");
    reveal_strlit("q4_k");
    reveal_strlit("q5_k");
    reveal_strlit("q6_k");
    reveal_strlit("q8_k");
    reveal_strlit("iq2_xxs");
    reveal_strlit("iq2_xs");
    reveal_strlit("iq3_xxs");
    reveal_strlit("iq1_s");
    reveal_strlit("iq4_nl");
    reveal_strlit("iq3_s");
    reveal_strlit("iq2_s");
    reveal_strlit("iq4_xs");
    reveal_strlit("i8");
    reveal_strlit("i16");
    reveal_strlit("i32");
    reveal_strlit("i64");
    reveal_strlit("f64");
    reveal_strlit("iq1_m");
    reveal_strlit("bf16");
    let a = spec_type_name(t4);
    let b = spec_type_name(t5);
    assert(a[3] == b[3]) by {
        assert(a.subrange(2, a.len() as int)[1] == b.subrange(2, b.len() as int)[1]);
    }
    assert(t4 == 2 && t5 == 6 || t4 == 3 && t5 == 7 || t4 == 12 && t5 == 13);
}

/// Law: a `qN_1` format is its `qN_0` counterpart with one more 16-bit
/// value per block (the block minimum next to its scale), two bytes, and
/// nothing else.
pub proof fn lemma_block_minimum(t0: u32, t1: u32)
    requires
        spec_type_size(t0) > 0,
        spec_type_size(t1) > 0,
        spec_type_name(t0).len() == 4 && spec_type_name(t0)[0] == 'q' && spec_type_name(t0)[3] == '0',
        spec_type_name(t1).len() == 4 && spec_type_name(t1)[0] == 'q' && spec_type_name(t1)[3] == '1',
        spec_type_name(t0)[1] == spec_type_name(t1)[1],
    ensures
        spec_block_size(t1) == spec_block_size(t0),
        spec_type_size(t1) == spec_type_size(t0) + 2,
{
    lemma_sized_type_names(t0);
    lemma_sized_type_names(t1);
    reveal_strlit("f32");
    reveal_strlit("f16");
    reveal_strlit("q4_0");
    reveal_strlit("q4_1");
    reveal_strlit("q4_2");
    reveal_strlit("q4_3");
    reveal_strlit("q5_0");
    reveal_strlit("q5_1");
    reveal_strlit("q8_0");
    reveal_strlit("q8_1");
    reveal_strlit("q2_k");
    reveal_strlit("q3_k");
    reveal_strlit("q4_k");
    reveal_strlit("q5_k");
    reveal_strlit("q6_k");
    reveal_strlit("q8_k");
    reveal_strlit("iq2_xxs");
    reveal_strlit("iq2_xs");
    reveal_strlit("iq3_xxs");
    reveal_strlit("iq1_s");
    reveal_strlit("iq4_nl");
    reveal_strlit("iq3_s");
    reveal_strlit("iq2_s");
    reveal_strlit("iq4_xs");
    reveal_strlit("i8");
    reveal_strlit("i16");
    reveal_strlit("i32");
    reveal_strlit("i64");
    reveal_strlit("f64");
    reveal_strlit("iq1_m");
    reveal_strlit("bf16");
    assert(t0 == 2 && t1 == 3 || t0 == 6 && t1 == 7 || t0 == 8 && t1 == 9);
}

} // verus!
