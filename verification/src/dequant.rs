//! Block-quantized element types and the unpacking of their blocks.
//!
//! A quantized element is a product of half-precision scales and small integers.
//! [`Element`] keeps those factors exactly, half-precision numbers as their bit
//! patterns, so that unpacking stays in integer arithmetic.
use vstd::prelude::*;

verus! {

pub const QK_K: usize = 256;

pub const QK8_0: usize = 32;

pub const K_SCALE_SIZE: usize = 12;

/// The element types that a tensor of a GGUF file can have.
#[derive(Clone, Copy, Debug, PartialEq, Eq, Hash, Structural)]
#[allow(non_camel_case_types)]
pub enum GgmlType {
    F32,
    F16,
    BF16,
    Q4_0,
    Q4_1,
    Q5_0,
    Q5_1,
    Q8_0,
    Q8_1,
    Q2K,
    Q3K,
    Q4K,
    Q5K,
    Q6K,
    Q8K,
}

/// Why a tensor's bytes cannot be unpacked.
#[derive(Clone, Copy, Debug, PartialEq, Eq, Structural)]
pub enum DequantError {
    /// No element type has this id.
    UnknownType { id: u32 },
    /// The element count is not a whole number of blocks.
    PartialBlock { elem_count: usize, block_size: usize },
    /// The byte count is not that of the element count.
    ByteLength { elem_count: usize, got: usize },
    /// The element type is known but has no unpacking.
    Unsupported { dtype: GgmlType },
}

impl DequantError {
    /// The error in words.
    pub open spec fn text(self) -> Seq<char> {
        match self {
            DequantError::UnknownType { .. } => "unknown ggml dtype id"@,
            DequantError::PartialBlock { .. } =>
                "tensor element count is not divisible by its block size"@,
            DequantError::ByteLength { .. } =>
                "tensor byte length does not match its element count"@,
            DequantError::Unsupported { .. } => "unsupported ggml type"@,
        }
    }

    /// The error in words.
    pub fn message(&self) -> (r: &'static str)
        ensures
            r@ == self.text(),
    {
        match *self {
            DequantError::UnknownType { .. } => "unknown ggml dtype id",
            DequantError::PartialBlock { .. } => "tensor element count is not divisible by its block size",
            DequantError::ByteLength { .. } => "tensor byte length does not match its element count",
            DequantError::Unsupported { .. } => "unsupported ggml type",
        }
    }
}

impl GgmlType {
    /// The id that a file stores for this type.
    pub open spec fn id(self) -> u32 {
        match self {
            GgmlType::F32 => 0,
            GgmlType::F16 => 1,
            GgmlType::Q4_0 => 2,
            GgmlType::Q4_1 => 3,
            GgmlType::Q5_0 => 6,
            GgmlType::Q5_1 => 7,
            GgmlType::Q8_0 => 8,
            GgmlType::Q8_1 => 9,
            GgmlType::Q2K => 10,
            GgmlType::Q3K => 11,
            GgmlType::Q4K => 12,
            GgmlType::Q5K => 13,
            GgmlType::Q6K => 14,
            GgmlType::Q8K => 15,
            GgmlType::BF16 => 30,
        }
    }

    /// Bytes of one block.
    pub open spec fn block_bytes(self) -> nat {
        match self {
            GgmlType::F32 => 4,
            GgmlType::F16 | GgmlType::BF16 => 2,
            GgmlType::Q4_0 => 18,
            GgmlType::Q4_1 => 20,
            GgmlType::Q5_0 => 22,
            GgmlType::Q5_1 => 24,
            GgmlType::Q8_0 => 34,
            GgmlType::Q8_1 => 36,
            GgmlType::Q2K => 84,
            GgmlType::Q3K => 110,
            GgmlType::Q4K => 144,
            GgmlType::Q5K => 176,
            GgmlType::Q6K => 210,
            GgmlType::Q8K => 292,
        }
    }

    /// Elements of one block.
    pub open spec fn block_elems(self) -> nat {
        match self {
            GgmlType::F32 | GgmlType::F16 | GgmlType::BF16 => 1,
            GgmlType::Q4_0 | GgmlType::Q4_1 | GgmlType::Q5_0 | GgmlType::Q5_1 | GgmlType::Q8_0
            | GgmlType::Q8_1 => 32,
            GgmlType::Q2K | GgmlType::Q3K | GgmlType::Q4K | GgmlType::Q5K | GgmlType::Q6K
            | GgmlType::Q8K => 256,
        }
    }

    /// Whether the engine loads tensors of this type.
    pub open spec fn supported(self) -> bool {
        self is Q4K || self is Q5K || self is Q6K || self is Q8_0 || self is F16 || self is F32
    }

    /// The type whose id is `id`, if any.
    pub open spec fn of_id(id: u32) -> Option<GgmlType> {
        match id {
            0 => Some(GgmlType::F32),
            1 => Some(GgmlType::F16),
            2 => Some(GgmlType::Q4_0),
            3 => Some(GgmlType::Q4_1),
            6 => Some(GgmlType::Q5_0),
            7 => Some(GgmlType::Q5_1),
            8 => Some(GgmlType::Q8_0),
            9 => Some(GgmlType::Q8_1),
            10 => Some(GgmlType::Q2K),
            11 => Some(GgmlType::Q3K),
            12 => Some(GgmlType::Q4K),
            13 => Some(GgmlType::Q5K),
            14 => Some(GgmlType::Q6K),
            15 => Some(GgmlType::Q8K),
            30 => Some(GgmlType::BF16),
            _ => None,
        }
    }

    /// The type whose id is `value`.
    pub fn from_u32(value: u32) -> (r: Result<Self, DequantError>)
        ensures
            r == (match GgmlType::of_id(value) {
                Some(t) => Ok::<GgmlType, DequantError>(t),
                None => Err(DequantError::UnknownType { id: value }),
            }),
    {
        let dtype = match value {
            0 => GgmlType::F32,
            1 => GgmlType::F16,
            2 => GgmlType::Q4_0,
            3 => GgmlType::Q4_1,
            6 => GgmlType::Q5_0,
            7 => GgmlType::Q5_1,
            8 => GgmlType::Q8_0,
            9 => GgmlType::Q8_1,
            10 => GgmlType::Q2K,
            11 => GgmlType::Q3K,
            12 => GgmlType::Q4K,
            13 => GgmlType::Q5K,
            14 => GgmlType::Q6K,
            15 => GgmlType::Q8K,
            30 => GgmlType::BF16,
            _ => return Err(DequantError::UnknownType { id: value }),
        };
        Ok(dtype)
    }

    /// The id of this type.
    pub fn to_u32(self) -> (r: u32)
        ensures
            r == self.id(),
    {
        match self {
            GgmlType::F32 => 0,
            GgmlType::F16 => 1,
            GgmlType::Q4_0 => 2,
            GgmlType::Q4_1 => 3,
            GgmlType::Q5_0 => 6,
            GgmlType::Q5_1 => 7,
            GgmlType::Q8_0 => 8,
            GgmlType::Q8_1 => 9,
            GgmlType::Q2K => 10,
            GgmlType::Q3K => 11,
            GgmlType::Q4K => 12,
            GgmlType::Q5K => 13,
            GgmlType::Q6K => 14,
            GgmlType::Q8K => 15,
            GgmlType::BF16 => 30,
        }
    }

    /// Bytes of one block.
    pub fn type_size(self) -> (r: usize)
        ensures
            r == self.block_bytes(),
    {
        match self {
            GgmlType::F32 => 4,
            GgmlType::F16 | GgmlType::BF16 => 2,
            GgmlType::Q4_0 => 18,
            GgmlType::Q4_1 => 20,
            GgmlType::Q5_0 => 22,
            GgmlType::Q5_1 => 24,
            GgmlType::Q8_0 => 34,
            GgmlType::Q8_1 => 36,
            GgmlType::Q2K => QK_K / 16 + QK_K / 4 + 2 * 2,
            GgmlType::Q3K => QK_K / 8 + QK_K / 4 + 12 + 2,
            GgmlType::Q4K => QK_K / 2 + K_SCALE_SIZE + 2 * 2,
            GgmlType::Q5K => QK_K / 8 + QK_K / 2 + 2 * 2 + K_SCALE_SIZE,
            GgmlType::Q6K => 3 * QK_K / 4 + QK_K / 16 + 2,
            GgmlType::Q8K => 4 + QK_K + QK_K / 16 * 2,
        }
    }

    /// Elements of one block.
    pub fn block_size(self) -> (r: usize)
        ensures
            r == self.block_elems(),
    {
        match self {
            GgmlType::F32 | GgmlType::F16 | GgmlType::BF16 => 1,
            GgmlType::Q4_0 | GgmlType::Q4_1 => 32,
            GgmlType::Q5_0 | GgmlType::Q5_1 => 32,
            GgmlType::Q8_0 | GgmlType::Q8_1 => QK8_0,
            GgmlType::Q2K | GgmlType::Q3K | GgmlType::Q4K | GgmlType::Q5K | GgmlType::Q6K
            | GgmlType::Q8K => QK_K,
        }
    }

    /// Whether the engine loads tensors of this type.
    pub fn is_supported_for_phase1(self) -> (r: bool)
        ensures
            r == self.supported(),
    {
        match self {
            GgmlType::Q4K | GgmlType::Q5K | GgmlType::Q6K | GgmlType::Q8_0 | GgmlType::F16
            | GgmlType::F32 => true,
            _ => false,
        }
    }

    /// The name under which the type is shown.
    pub open spec fn label(self) -> Seq<char> {
        match self {
            GgmlType::F32 => "F32"@,
            GgmlType::F16 => "F16"@,
            GgmlType::BF16 => "BF16"@,
            GgmlType::Q4_0 => "Q4_0"@,
            GgmlType::Q4_1 => "Q4_1"@,
            GgmlType::Q5_0 => "Q5_0"@,
            GgmlType::Q5_1 => "Q5_1"@,
            GgmlType::Q8_0 => "Q8_0"@,
            GgmlType::Q8_1 => "Q8_1"@,
            GgmlType::Q2K => "Q2_K"@,
            GgmlType::Q3K => "Q3_K"@,
            GgmlType::Q4K => "Q4_K"@,
            GgmlType::Q5K => "Q5_K"@,
            GgmlType::Q6K => "Q6_K"@,
            GgmlType::Q8K => "Q8_K"@,
        }
    }

    /// The name under which the type is shown.
    pub fn name(self) -> (r: &'static str)
        ensures
            r@ == self.label(),
    {
        match self {
            GgmlType::F32 => "F32",
            GgmlType::F16 => "F16",
            GgmlType::BF16 => "BF16",
            GgmlType::Q4_0 => "Q4_0",
            GgmlType::Q4_1 => "Q4_1",
            GgmlType::Q5_0 => "Q5_0",
            GgmlType::Q5_1 => "Q5_1",
            GgmlType::Q8_0 => "Q8_0",
            GgmlType::Q8_1 => "Q8_1",
            GgmlType::Q2K => "Q2_K",
            GgmlType::Q3K => "Q3_K",
            GgmlType::Q4K => "Q4_K",
            GgmlType::Q5K => "Q5_K",
            GgmlType::Q6K => "Q6_K",
            GgmlType::Q8K => "Q8_K",
        }
    }
}

/// Ids and types name each other: looking up a type's id gives the type, and the
/// type found for an id has that id.
pub proof fn law_type_id_round_trip(t: GgmlType, id: u32)
    ensures
        GgmlType::of_id(t.id()) == Some(t),
        GgmlType::of_id(id) == Some(t) ==> t.id() == id,
{
}

/// One element, as the exact factors of its value.
#[derive(Clone, Copy, Debug, PartialEq, Eq, Structural)]
#[allow(inconsistent_fields)]
pub enum Element {
    /// A single-precision number, by its bits.
    Single { bits: u32 },
    /// A half-precision number, by its bits.
    Half { bits: u16 },
    /// A number in brain floating point, by its bits.
    Brain { bits: u16 },
    /// A double-precision number, by its bits.
    Double { bits: u64 },
    /// `q * d`, with `d` half-precision.
    Scaled { d: u16, q: i8 },
    /// `(d * scale) * q - (min * min_scale)`, with `d` and `min` half-precision.
    ScaledMin { d: u16, scale: u8, min: u16, min_scale: u8, q: u8 },
    /// `(d * scale) * q`, with `d` half-precision.
    ScaledSigned { d: u16, scale: i8, q: i8 },
}

/// One element in half precision.
#[derive(Clone, Copy, Debug, PartialEq, Eq, Structural)]
pub enum HalfElement {
    /// A half-precision number, by its bits.
    Kept { bits: u16 },
    /// The half-precision number nearest to an element.
    Rounded { of: Element },
}

impl Element {
    /// The element in half precision: a half-precision number keeps its bits.
    pub open spec fn halved(self) -> HalfElement {
        match self {
            Element::Half { bits } => HalfElement::Kept { bits },
            _ => HalfElement::Rounded { of: self },
        }
    }

    /// The element in half precision.
    pub fn to_half(self) -> (r: HalfElement)
        ensures
            r == self.halved(),
    {
        match self {
            Element::Half { bits } => HalfElement::Kept { bits },
            _ => HalfElement::Rounded { of: self },
        }
    }
}

/// Two bytes as a little-endian number.
pub open spec fn le16(data: Seq<u8>, offset: int) -> u16 {
    (data[offset] + 256 * data[offset + 1]) as u16
}

/// Four bytes as a little-endian number.
pub open spec fn le32(data: Seq<u8>, offset: int) -> u32 {
    (data[offset] + 0x100 * data[offset + 1] + 0x1_0000 * data[offset + 2] + 0x100_0000
        * data[offset + 3]) as u32
}

/// A byte as a two's-complement number.
pub open spec fn signed(b: u8) -> i8 {
    if b < 128 {
        b as i8
    } else {
        (b - 256) as i8
    }
}

/// Reads a byte as a two's-complement number.
pub fn signed_byte(b: u8) -> (r: i8)
    ensures
        r == signed(b),
{
    if b < 128 {
        b as i8
    } else {
        (b as i16 - 256) as i8
    }
}

/// The two bytes at `offset`, little-endian.
pub fn read_u16(data: &[u8], offset: usize) -> (r: u16)
    requires
        offset + 1 < data@.len(),
    ensures
        r == le16(data@, offset as int),
{
    data[offset] as u16 + 256 * (data[offset + 1] as u16)
}

/// The four bytes at `offset`, little-endian.
pub fn read_u32(data: &[u8], offset: usize) -> (r: u32)
    requires
        offset + 3 < data@.len(),
    ensures
        r == le32(data@, offset as int),
{
    data[offset] as u32 + 0x100 * (data[offset + 1] as u32) + 0x1_0000 * (data[offset + 2] as u32)
        + 0x100_0000 * (data[offset + 3] as u32)
}

/// Scale and minimum of sub-block `j` out of the twelve packed bytes `q`: six bits
/// each, the first four pairs whole, the last four split over two places.
pub open spec fn scale_min_k4(j: int, q: Seq<u8>) -> (u8, u8) {
    if j < 4 {
        (q[j] % 64, q[j + 4] % 64)
    } else {
        (
            (q[j + 4] % 16 + 16 * (q[j - 4] / 64)) as u8,
            (q[j + 4] / 16 + 16 * (q[j] / 64)) as u8,
        )
    }
}

/// Reads the packed scale and minimum of sub-block `j`.
pub fn get_scale_min_k4(j: usize, q: &[u8]) -> (r: (u8, u8))
    requires
        j < 8,
        q@.len() >= 12,
    ensures
        r == scale_min_k4(j as int, q@),
{
    if j < 4 {
        let a: u8 = q[j];
        let b: u8 = q[j + 4];
        assert(a & 63 == a % 64) by (bit_vector);
        assert(b & 63 == b % 64) by (bit_vector);
        (a & 63, b & 63)
    } else {
        let a: u8 = q[j + 4];
        let b: u8 = q[j - 4];
        let c: u8 = q[j];
        assert((a & 0xF) | ((b >> 6) << 4) == a % 16 + 16 * (b / 64)) by (bit_vector);
        assert((a >> 4) | ((c >> 6) << 4) == a / 16 + 16 * (c / 64)) by (bit_vector);
        ((a & 0xF) | ((b >> 6) << 4), (a >> 4) | ((c >> 6) << 4))
    }
}

/// Four bits of a byte: the low ones, or the high ones.
pub open spec fn nibble(b: u8, high: bool) -> u8 {
    if high {
        b / 16
    } else {
        b % 16
    }
}

/// Reads four bits of a byte.
fn read_nibble(b: u8, high: bool) -> (r: u8)
    ensures
        r == nibble(b, high),
{
    assert(b & 0xF == b % 16) by (bit_vector);
    assert(b >> 4 == b / 16) by (bit_vector);
    if high {
        b >> 4
    } else {
        b & 0xF
    }
}

/// The two bits of a byte at position `2 * k`.
pub open spec fn bit_pair(b: u8, k: int) -> u8 {
    if k == 0 {
        b % 4
    } else if k == 1 {
        b / 4 % 4
    } else if k == 2 {
        b / 16 % 4
    } else {
        b / 64
    }
}

/// Reads the two bits of a byte at position `2 * k`.
fn read_bit_pair(b: u8, k: usize) -> (r: u8)
    requires
        k < 4,
    ensures
        r == bit_pair(b, k as int),
        r < 4,
{
    assert(b & 3 == b % 4) by (bit_vector);
    assert((b >> 2) & 3 == b / 4 % 4) by (bit_vector);
    assert((b >> 4) & 3 == b / 16 % 4) by (bit_vector);
    assert((b >> 6) & 3 == b / 64) by (bit_vector);
    if k == 0 {
        b & 3
    } else if k == 1 {
        (b >> 2) & 3
    } else if k == 2 {
        (b >> 4) & 3
    } else {
        (b >> 6) & 3
    }
}

/// Element `i` of 32-bit floating-point data.
pub open spec fn single_element(data: Seq<u8>, i: int) -> Element {
    Element::Single { bits: le32(data, 4 * i) }
}

/// Element `i` of 16-bit floating-point data.
pub open spec fn half_element(data: Seq<u8>, i: int) -> Element {
    Element::Half { bits: le16(data, 2 * i) }
}

/// Element `i` of Q8_0 data: per block of 32 elements one scale, then a signed
/// byte for each.
pub open spec fn q8_0_element(data: Seq<u8>, i: int) -> Element {
    let base = i / 32 * 34;
    Element::Scaled { d: le16(data, base), q: signed(data[base + 2 + i % 32]) }
}

/// Element `i` of Q4_K data: per block of 256 elements two scales, twelve bytes of
/// sub-block scales and minima, then four bits for each element. Each 32 bytes hold
/// 64 elements: the low halves come first.
pub open spec fn q4k_element(data: Seq<u8>, i: int) -> Element {
    let base = i / 256 * 144;
    let n = i % 256;
    let high = n % 64 >= 32;
    let (scale, min_scale) = scale_min_k4(n / 32, data.subrange(base + 4, base + 16));
    Element::ScaledMin {
        d: le16(data, base),
        scale,
        min: le16(data, base + 2),
        min_scale,
        q: nibble(data[base + 16 + n / 64 * 32 + n % 32], high),
    }
}

/// Element `i` of Q5_K data: as Q4_K, with a fifth bit for each element. Byte `l`
/// of the high bits serves the elements at place `l` of all eight sub-blocks.
pub open spec fn q5k_element(data: Seq<u8>, i: int) -> Element {
    let base = i / 256 * 176;
    let n = i % 256;
    let high = n % 64 >= 32;
    let (scale, min_scale) = scale_min_k4(n / 32, data.subrange(base + 4, base + 16));
    let pair = bit_pair(data[base + 16 + n % 32], n / 64);
    let fifth = if high {
        pair / 2
    } else {
        pair % 2
    };
    Element::ScaledMin {
        d: le16(data, base),
        scale,
        min: le16(data, base + 2),
        min_scale,
        q: (nibble(data[base + 48 + n / 64 * 32 + n % 32], high) + 16 * fifth) as u8,
    }
}

/// Element `i` of Q6_K data: per block of 256 elements 128 bytes of low bits, 64 of
/// high bits, 16 signed scales and one half-precision scale. Each half block holds
/// four runs of 32; runs 0 and 1 lie in the low halves of the low bits, runs 2 and 3
/// in the high halves.
pub open spec fn q6k_element(data: Seq<u8>, i: int) -> Element {
    let base = i / 256 * 210;
    let n = i % 256;
    let half = n / 128;
    let run = n % 128 / 32;
    let l = n % 32;
    let low = nibble(data[base + 64 * half + 32 * (run % 2) + l], run >= 2);
    let top = bit_pair(data[base + 128 + 32 * half + l], run);
    Element::ScaledSigned {
        d: le16(data, base + 208),
        scale: signed(data[base + 192 + 8 * half + l / 16 + 2 * run]),
        q: (low + 16 * top - 32) as i8,
    }
}

fn read_q8_0(data: &[u8], i: usize) -> (r: Element)
    requires
        i / 32 * 34 + 34 <= data.len(),
    ensures
        r == q8_0_element(data@, i as int),
{
    let base: usize = i / 32 * 34;
    Element::Scaled { d: read_u16(data, base), q: signed_byte(data[base + 2 + i % 32]) }
}

fn read_q4k(data: &[u8], i: usize) -> (r: Element)
    requires
        i / 256 * 144 + 144 <= data.len(),
    ensures
        r == q4k_element(data@, i as int),
{
    let base: usize = i / 256 * 144;
    let n: usize = i % 256;
    let scales: &[u8] = vstd::slice::slice_subrange(data, base + 4, base + 16);
    let (scale, min_scale) = get_scale_min_k4(n / 32, scales);
    Element::ScaledMin {
        d: read_u16(data, base),
        scale,
        min: read_u16(data, base + 2),
        min_scale,
        q: read_nibble(data[base + 16 + n / 64 * 32 + n % 32], n % 64 >= 32),
    }
}

fn read_q5k(data: &[u8], i: usize) -> (r: Element)
    requires
        i / 256 * 176 + 176 <= data.len(),
    ensures
        r == q5k_element(data@, i as int),
{
    let base: usize = i / 256 * 176;
    let n: usize = i % 256;
    let high: bool = n % 64 >= 32;
    let scales: &[u8] = vstd::slice::slice_subrange(data, base + 4, base + 16);
    let (scale, min_scale) = get_scale_min_k4(n / 32, scales);
    let pair: u8 = read_bit_pair(data[base + 16 + n % 32], n / 64);
    let fifth: u8 = if high {
        pair / 2
    } else {
        pair % 2
    };
    Element::ScaledMin {
        d: read_u16(data, base),
        scale,
        min: read_u16(data, base + 2),
        min_scale,
        q: read_nibble(data[base + 48 + n / 64 * 32 + n % 32], high) + 16 * fifth,
    }
}

fn read_q6k(data: &[u8], i: usize) -> (r: Element)
    requires
        i / 256 * 210 + 210 <= data.len(),
    ensures
        r == q6k_element(data@, i as int),
{
    let base: usize = i / 256 * 210;
    let n: usize = i % 256;
    let half: usize = n / 128;
    let run: usize = n % 128 / 32;
    let l: usize = n % 32;
    let low: u8 = read_nibble(data[base + 64 * half + 32 * (run % 2) + l], run >= 2);
    let top: u8 = read_bit_pair(data[base + 128 + 32 * half + l], run);
    let scale: i8 = signed_byte(data[base + 192 + 8 * half + l / 16 + 2 * run]);
    let q: i8 = (low as i16 + 16 * (top as i16) - 32) as i8;
    Element::ScaledSigned { d: read_u16(data, base + 208), scale, q }
}

/// Element `i` of data of type `dtype`.
pub open spec fn element(dtype: GgmlType, data: Seq<u8>, i: int) -> Element {
    match dtype {
        GgmlType::F32 => single_element(data, i),
        GgmlType::F16 => half_element(data, i),
        GgmlType::Q8_0 => q8_0_element(data, i),
        GgmlType::Q4K => q4k_element(data, i),
        GgmlType::Q5K => q5k_element(data, i),
        _ => q6k_element(data, i),
    }
}

/// What unpacking `elem_count` elements of type `dtype` gives.
pub open spec fn dequantize_spec(dtype: GgmlType, data: Seq<u8>, elem_count: usize) -> Result<
    Seq<Element>,
    DequantError,
> {
    if elem_count as nat % dtype.block_elems() != 0 {
        Err(
            DequantError::PartialBlock { elem_count, block_size: dtype.block_elems() as usize },
        )
    } else if data.len() != elem_count as nat / dtype.block_elems() * dtype.block_bytes() {
        Err(DequantError::ByteLength { elem_count, got: data.len() as usize })
    } else if !dtype.supported() {
        Err(DequantError::Unsupported { dtype })
    } else {
        Ok(Seq::new(elem_count as nat, |i: int| element(dtype, data, i)))
    }
}

/// Unpacks a tensor's bytes into its elements, in order.
pub fn dequantize_to_f32(dtype: GgmlType, data: &[u8], elem_count: usize) -> (r: Result<
    Vec<Element>,
    DequantError,
>)
    ensures
        match r {
            Ok(v) => dequantize_spec(dtype, data@, elem_count) == Ok::<Seq<Element>, DequantError>(
                v@,
            ),
            Err(e) => dequantize_spec(dtype, data@, elem_count) == Err::<
                Seq<Element>,
                DequantError,
            >(e),
        },
{
    let block: usize = dtype.block_size();
    let size: usize = dtype.type_size();
    if elem_count % block != 0 {
        return Err(DequantError::PartialBlock { elem_count, block_size: block });
    }
    let blocks: usize = elem_count / block;
    match blocks.checked_mul(size) {
        Some(expected) => {
            if data.len() != expected {
                return Err(DequantError::ByteLength { elem_count, got: data.len() });
            }
        },
        None => {
            return Err(DequantError::ByteLength { elem_count, got: data.len() });
        },
    }
    if !dtype.is_supported_for_phase1() {
        return Err(DequantError::Unsupported { dtype });
    }
    let mut out: Vec<Element> = Vec::new();
    let mut i: usize = 0;
    while i < elem_count
        invariant
            i <= elem_count,
            dtype.supported(),
            elem_count as nat % dtype.block_elems() == 0,
            data.len() == elem_count as nat / dtype.block_elems() * dtype.block_bytes(),
            out@.len() == i,
            forall|k: int| 0 <= k < i ==> out@[k] == element(dtype, data@, k),
        decreases elem_count - i,
    {
        let e: Element = match dtype {
            GgmlType::F32 => Element::Single { bits: read_u32(data, 4 * i) },
            GgmlType::F16 => Element::Half { bits: read_u16(data, 2 * i) },
            GgmlType::Q8_0 => read_q8_0(data, i),
            GgmlType::Q4K => read_q4k(data, i),
            GgmlType::Q5K => read_q5k(data, i),
            _ => read_q6k(data, i),
        };
        out.push(e);
        i = i + 1;
    }
    assert(out@ =~= Seq::new(elem_count as nat, |k: int| element(dtype, data@, k)));
    Ok(out)
}

/// What unpacking `elem_count` elements of type `dtype` into half precision gives.
pub open spec fn dequantize_half_spec(dtype: GgmlType, data: Seq<u8>, elem_count: usize) -> Result<
    Seq<HalfElement>,
    DequantError,
> {
    match dequantize_spec(dtype, data, elem_count) {
        Ok(elements) => Ok(elements.map_values(|e: Element| e.halved())),
        Err(e) => Err(e),
    }
}

/// Unpacks a tensor's bytes into its elements in half precision, in order.
pub fn dequantize_to_f16(dtype: GgmlType, data: &[u8], elem_count: usize) -> (r: Result<
    Vec<HalfElement>,
    DequantError,
>)
    ensures
        match r {
            Ok(v) => dequantize_half_spec(dtype, data@, elem_count) == Ok::<
                Seq<HalfElement>,
                DequantError,
            >(v@),
            Err(e) => dequantize_half_spec(dtype, data@, elem_count) == Err::<
                Seq<HalfElement>,
                DequantError,
            >(e),
        },
{
    let elements: Vec<Element> = dequantize_to_f32(dtype, data, elem_count)?;
    let mut out: Vec<HalfElement> = Vec::new();
    let mut i: usize = 0;
    while i < elements.len()
        invariant
            i <= elements.len(),
            out@.len() == i,
            forall|k: int| 0 <= k < i ==> out@[k] == elements@[k].halved(),
        decreases elements.len() - i,
    {
        out.push(elements[i].to_half());
        i = i + 1;
    }
    assert(out@ =~= elements@.map_values(|e: Element| e.halved()));
    Ok(out)
}

/// A tensor unpacks into half precision where it unpacks at all, with the same errors
/// otherwise. Half-precision data comes out with its own bits; of every other type each
/// element is rounded once.
pub proof fn law_half_precision_keeps_bits(
    dtype: GgmlType,
    data: Seq<u8>,
    elem_count: usize,
    i: int,
)
    ensures
        match dequantize_spec(dtype, data, elem_count) {
            Err(e) => dequantize_half_spec(dtype, data, elem_count) == Err::<
                Seq<HalfElement>,
                DequantError,
            >(e),
            Ok(elements) => {
                &&& dequantize_half_spec(dtype, data, elem_count) matches Ok(halves)
                &&& halves.len() == elem_count
                &&& 0 <= i < elem_count ==> halves[i] == (if dtype is F16 {
                    HalfElement::Kept { bits: le16(data, 2 * i) }
                } else {
                    HalfElement::Rounded { of: elements[i] }
                })
            },
        },
{
}

} // verus!
