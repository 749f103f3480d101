//! The GGUF container: typed metadata, tensor descriptions and tensor bytes.
use crate::dequant::{le16, le32, signed, signed_byte, GgmlType};
use crate::names::{bind, lookup, NameMap};
use vstd::prelude::*;
use vstd::utf8::{decode_utf8, valid_utf8};

verus! {

pub const DEFAULT_ALIGNMENT: u64 = 32;

/// Longest string, in bytes.
pub const GGUF_MAX_STRING_LENGTH: u64 = 0x4000_0000;

/// Most elements of one array, most tensors, most metadata entries.
pub const GGUF_MAX_ARRAY_ELEMENTS: u64 = 0x4000_0000;

pub const GGUF_MAX_TENSOR_DIMS: u32 = 4;

/// Deepest nesting of arrays.
pub const GGUF_MAX_VALUE_DEPTH: usize = 64;

/// Most metadata array elements of one file, over all arrays together. An element
/// costs far more memory than disk, so what a file claims is bounded by the sum.
pub const GGUF_MAX_METADATA_ELEMENTS: u64 = 0x100_0000;

const MAGIC: u32 = 0x4655_4747;

#[derive(Clone, Copy, Debug, PartialEq, Eq, Structural)]
pub enum Version {
    V2,
    V3,
}

/// Why a file, one of its tensors or one of its metadata values cannot be read.
#[derive(Clone, Copy, Debug, PartialEq, Eq, Structural)]
#[allow(inconsistent_fields)]
pub enum GgufError {
    /// The file ends inside a number.
    Truncated,
    Magic { magic: u32 },
    Version { version: u32 },
    TensorCount { count: u64 },
    MetadataCount { count: u64 },
    /// No value type has this id.
    ValueType { id: u32 },
    /// A boolean is neither 0 nor 1.
    Bool { byte: u8 },
    /// Arrays are nested too deeply.
    Depth,
    ArrayLength { len: u64 },
    /// The arrays of the file hold too many elements together.
    ElementBudget { len: u64, left: u64 },
    /// An array claims more elements than the rest of the file can hold.
    ArrayBytes { len: u64, needed: u64, left: u64 },
    StringLength { len: u64 },
    StringBytes { len: u64, left: u64 },
    Dimensions { count: u32 },
    DimensionRange { dim: u64 },
    /// No element type has this id.
    ElementType { id: u32 },
    ZeroAlignment,
    AlignmentOverflow,
    DataOffset { offset: u64, file_size: u64 },
    ElementOverflow,
    PartialBlock { elem_count: usize, dtype: GgmlType },
    ByteOverflow,
    NoMetadata,
    NoTensor,
    FileOffsetOverflow,
    EndOverflow,
    PastEnd { start: usize, end: usize, file_size: usize },
    NotUnsigned,
    NotU32 { value: u64 },
    NotFloat,
    NotBool,
    NotString,
    NotArray,
}

impl GgufError {
    /// The error in words.
    pub open spec fn text(self) -> Seq<char> {
        match self {
            GgufError::Truncated => "GGUF file ends inside a value"@,
            GgufError::Magic { .. } => "GGUF magic must be little-endian 0x46554747"@,
            GgufError::Version { .. } => "GGUF version is unsupported; expected v2 or v3"@,
            GgufError::TensorCount { .. } => "GGUF tensor_count exceeds max"@,
            GgufError::MetadataCount { .. } => "GGUF metadata_kv_count exceeds max"@,
            GgufError::ValueType { .. } => "GGUF unrecognized value type"@,
            GgufError::Bool { .. } => "GGUF invalid bool value"@,
            GgufError::Depth => "GGUF value nesting depth exceeds max"@,
            GgufError::ArrayLength { .. } => "GGUF array length exceeds max"@,
            GgufError::ElementBudget { .. } =>
                "GGUF metadata arrays exceed the total element budget"@,
            GgufError::ArrayBytes { .. } => "GGUF array needs more bytes than are remaining"@,
            GgufError::StringLength { .. } => "GGUF string length exceeds max"@,
            GgufError::StringBytes { .. } => "GGUF string length exceeds remaining file bytes"@,
            GgufError::Dimensions { .. } => "GGUF tensor has too many dimensions"@,
            GgufError::DimensionRange { .. } => "GGUF tensor dimension does not fit usize"@,
            GgufError::ElementType { .. } => "unknown ggml dtype id"@,
            GgufError::ZeroAlignment => "GGUF general.alignment must be positive"@,
            GgufError::AlignmentOverflow => "GGUF alignment calculation overflowed"@,
            GgufError::DataOffset { .. } => "GGUF tensor data offset exceeds file size"@,
            GgufError::ElementOverflow => "tensor element count overflows usize"@,
            GgufError::PartialBlock { .. } =>
                "tensor element count is not divisible by its block size"@,
            GgufError::ByteOverflow => "tensor byte size overflows usize"@,
            GgufError::NoMetadata => "GGUF metadata key not found"@,
            GgufError::NoTensor => "GGUF tensor not found"@,
            GgufError::FileOffsetOverflow => "tensor file offset overflows u64"@,
            GgufError::EndOverflow => "tensor end offset overflows usize"@,
            GgufError::PastEnd { .. } => "tensor needs bytes past the end of the file"@,
            GgufError::NotUnsigned => "GGUF metadata value is not an unsigned integer"@,
            GgufError::NotU32 { .. } => "GGUF metadata value does not fit u32"@,
            GgufError::NotFloat => "GGUF metadata value is not a float"@,
            GgufError::NotBool => "GGUF metadata value is not bool"@,
            GgufError::NotString => "GGUF metadata value is not string"@,
            GgufError::NotArray => "GGUF metadata value is not array"@,
        }
    }

    /// The error in words.
    pub fn message(&self) -> (r: &'static str)
        ensures
            r@ == self.text(),
    {
        match *self {
            GgufError::Truncated => "GGUF file ends inside a value",
            GgufError::Magic { .. } => "GGUF magic must be little-endian 0x46554747",
            GgufError::Version { .. } => "GGUF version is unsupported; expected v2 or v3",
            GgufError::TensorCount { .. } => "GGUF tensor_count exceeds max",
            GgufError::MetadataCount { .. } => "GGUF metadata_kv_count exceeds max",
            GgufError::ValueType { .. } => "GGUF unrecognized value type",
            GgufError::Bool { .. } => "GGUF invalid bool value",
            GgufError::Depth => "GGUF value nesting depth exceeds max",
            GgufError::ArrayLength { .. } => "GGUF array length exceeds max",
            GgufError::ElementBudget { .. } => "GGUF metadata arrays exceed the total element budget",
            GgufError::ArrayBytes { .. } => "GGUF array needs more bytes than are remaining",
            GgufError::StringLength { .. } => "GGUF string length exceeds max",
            GgufError::StringBytes { .. } => "GGUF string length exceeds remaining file bytes",
            GgufError::Dimensions { .. } => "GGUF tensor has too many dimensions",
            GgufError::DimensionRange { .. } => "GGUF tensor dimension does not fit usize",
            GgufError::ElementType { .. } => "unknown ggml dtype id",
            GgufError::ZeroAlignment => "GGUF general.alignment must be positive",
            GgufError::AlignmentOverflow => "GGUF alignment calculation overflowed",
            GgufError::DataOffset { .. } => "GGUF tensor data offset exceeds file size",
            GgufError::ElementOverflow => "tensor element count overflows usize",
            GgufError::PartialBlock { .. } => "tensor element count is not divisible by its block size",
            GgufError::ByteOverflow => "tensor byte size overflows usize",
            GgufError::NoMetadata => "GGUF metadata key not found",
            GgufError::NoTensor => "GGUF tensor not found",
            GgufError::FileOffsetOverflow => "tensor file offset overflows u64",
            GgufError::EndOverflow => "tensor end offset overflows usize",
            GgufError::PastEnd { .. } => "tensor needs bytes past the end of the file",
            GgufError::NotUnsigned => "GGUF metadata value is not an unsigned integer",
            GgufError::NotU32 { .. } => "GGUF metadata value does not fit u32",
            GgufError::NotFloat => "GGUF metadata value is not a float",
            GgufError::NotBool => "GGUF metadata value is not bool",
            GgufError::NotString => "GGUF metadata value is not string",
            GgufError::NotArray => "GGUF metadata value is not array",
        }
    }
}

/// The types of metadata values.
#[derive(Clone, Copy, Debug, PartialEq, Eq, Hash, Structural)]
pub enum ValueType {
    U8,
    I8,
    U16,
    I16,
    U32,
    I32,
    U64,
    I64,
    F32,
    F64,
    Bool,
    String,
    Array,
}

impl ValueType {
    /// The value type whose id is `id`, if any.
    pub open spec fn of_id(id: u32) -> Option<ValueType> {
        match id {
            0 => Some(ValueType::U8),
            1 => Some(ValueType::I8),
            2 => Some(ValueType::U16),
            3 => Some(ValueType::I16),
            4 => Some(ValueType::U32),
            5 => Some(ValueType::I32),
            6 => Some(ValueType::F32),
            7 => Some(ValueType::Bool),
            8 => Some(ValueType::String),
            9 => Some(ValueType::Array),
            10 => Some(ValueType::U64),
            11 => Some(ValueType::I64),
            12 => Some(ValueType::F64),
            _ => None,
        }
    }

    /// Fewest bytes that a value of this type takes in a file.
    pub open spec fn least_bytes(self) -> nat {
        match self {
            ValueType::U8 | ValueType::I8 | ValueType::Bool => 1,
            ValueType::U16 | ValueType::I16 => 2,
            ValueType::U32 | ValueType::I32 | ValueType::F32 => 4,
            ValueType::U64 | ValueType::I64 | ValueType::F64 => 8,
            ValueType::String => 8,
            ValueType::Array => 12,
        }
    }

    /// The value type whose id is `v`.
    pub fn from_u32(v: u32) -> (r: Result<Self, GgufError>)
        ensures
            r == (match ValueType::of_id(v) {
                Some(t) => Ok::<ValueType, GgufError>(t),
                None => Err(GgufError::ValueType { id: v }),
            }),
    {
        let ty = match v {
            0 => ValueType::U8,
            1 => ValueType::I8,
            2 => ValueType::U16,
            3 => ValueType::I16,
            4 => ValueType::U32,
            5 => ValueType::I32,
            6 => ValueType::F32,
            7 => ValueType::Bool,
            8 => ValueType::String,
            9 => ValueType::Array,
            10 => ValueType::U64,
            11 => ValueType::I64,
            12 => ValueType::F64,
            _ => return Err(GgufError::ValueType { id: v }),
        };
        Ok(ty)
    }

    /// Fewest bytes that a value of this type takes in a file.
    pub fn min_disk_size(self) -> (r: u64)
        ensures
            r == self.least_bytes(),
    {
        match self {
            ValueType::U8 | ValueType::I8 | ValueType::Bool => 1,
            ValueType::U16 | ValueType::I16 => 2,
            ValueType::U32 | ValueType::I32 | ValueType::F32 => 4,
            ValueType::U64 | ValueType::I64 | ValueType::F64 => 8,
            ValueType::String => 8,
            ValueType::Array => 12,
        }
    }
}

/// A floating-point number, by its bits.
#[derive(Clone, Copy, Debug, PartialEq, Eq, Structural)]
#[allow(inconsistent_fields)]
pub enum Float {
    Single { bits: u32 },
    Double { bits: u64 },
}

/// A metadata value. Floating-point numbers are kept by their bits.
#[derive(Debug)]
pub enum Value {
    U8(u8),
    I8(i8),
    U16(u16),
    I16(i16),
    U32(u32),
    I32(i32),
    U64(u64),
    I64(i64),
    F32(u32),
    F64(u64),
    Bool(bool),
    String(String),
    Array(Vec<Value>),
}

/// What a metadata value is.
pub enum ValueModel {
    U8(u8),
    I8(i8),
    U16(u16),
    I16(i16),
    U32(u32),
    I32(i32),
    U64(u64),
    I64(i64),
    F32(u32),
    F64(u64),
    Bool(bool),
    String(Seq<char>),
    Array(Seq<ValueModel>),
}

impl Value {
    /// What the value is.
    pub open spec fn model(self) -> ValueModel
        decreases self,
    {
        match self {
            Value::U8(v) => ValueModel::U8(v),
            Value::I8(v) => ValueModel::I8(v),
            Value::U16(v) => ValueModel::U16(v),
            Value::I16(v) => ValueModel::I16(v),
            Value::U32(v) => ValueModel::U32(v),
            Value::I32(v) => ValueModel::I32(v),
            Value::U64(v) => ValueModel::U64(v),
            Value::I64(v) => ValueModel::I64(v),
            Value::F32(v) => ValueModel::F32(v),
            Value::F64(v) => ValueModel::F64(v),
            Value::Bool(v) => ValueModel::Bool(v),
            Value::String(v) => ValueModel::String(v@),
            Value::Array(v) => ValueModel::Array(
                Seq::new(
                    v@.len(),
                    |i: int|
                        if 0 <= i < v@.len() {
                            v@[i].model()
                        } else {
                            ValueModel::Bool(false)
                        },
                ),
            ),
        }
    }
}

/// What each of the values is.
pub open spec fn models(s: Seq<Value>) -> Seq<ValueModel> {
    Seq::new(s.len(), |i: int| s[i].model())
}

/// An array is its values in order.
pub proof fn lemma_array_model(v: Value)
    requires
        v is Array,
    ensures
        v.model() == ValueModel::Array(models(v->Array_0@)),
{
    assert(v.model()->Array_0 =~= models(v->Array_0@));
}

impl View for Value {
    type V = ValueModel;

    open spec fn view(&self) -> ValueModel {
        self.model()
    }
}

/// Eight bytes as a little-endian number.
pub open spec fn le64(data: Seq<u8>, offset: int) -> u64 {
    (le32(data, offset) + 0x1_0000_0000 * le32(data, offset + 4)) as u64
}

/// What a byte at `pos` is, and where the next one stands.
pub open spec fn rd_u8(b: Seq<u8>, pos: int) -> Result<(u8, int), GgufError> {
    if pos + 1 <= b.len() {
        Ok((b[pos], pos + 1))
    } else {
        Err(GgufError::Truncated)
    }
}

/// What the 16-bit number at `pos` is, and where the next byte stands.
pub open spec fn rd_u16(b: Seq<u8>, pos: int) -> Result<(u16, int), GgufError> {
    if pos + 2 <= b.len() {
        Ok((le16(b, pos), pos + 2))
    } else {
        Err(GgufError::Truncated)
    }
}

/// What the 32-bit number at `pos` is, and where the next byte stands.
pub open spec fn rd_u32(b: Seq<u8>, pos: int) -> Result<(u32, int), GgufError> {
    if pos + 4 <= b.len() {
        Ok((le32(b, pos), pos + 4))
    } else {
        Err(GgufError::Truncated)
    }
}

/// What the 64-bit number at `pos` is, and where the next byte stands.
pub open spec fn rd_u64(b: Seq<u8>, pos: int) -> Result<(u64, int), GgufError> {
    if pos + 8 <= b.len() {
        Ok((le64(b, pos), pos + 8))
    } else {
        Err(GgufError::Truncated)
    }
}

/// 16 bits as a two's-complement number.
pub open spec fn signed16(v: u16) -> i16 {
    if v < 0x8000 {
        v as i16
    } else {
        (v - 0x1_0000) as i16
    }
}

/// 32 bits as a two's-complement number.
pub open spec fn signed32(v: u32) -> i32 {
    if v < 0x8000_0000 {
        v as i32
    } else {
        (v - 0x1_0000_0000) as i32
    }
}

/// 64 bits as a two's-complement number.
pub open spec fn signed64(v: u64) -> i64 {
    if v < 0x8000_0000_0000_0000 {
        v as i64
    } else {
        (v - 0x1_0000_0000_0000_0000) as i64
    }
}

/// `s` without its trailing zero bytes.
pub open spec fn strip_zeros(s: Seq<u8>) -> Seq<u8>
    decreases s.len(),
{
    if s.len() > 0 && s.last() == 0 {
        strip_zeros(s.drop_last())
    } else {
        s
    }
}

/// The text of `bytes`, with replacement characters where they are not UTF-8.
pub uninterp spec fn utf8_lossy(bytes: Seq<u8>) -> Seq<char>;

/// `std::string::String::from_utf8_lossy`: the text of the bytes. Where the bytes
/// are valid UTF-8 it is their decoding; what stands for invalid bytes is not said.
#[verifier::external_body]
fn string_from_utf8_lossy(bytes: &[u8]) -> (r: String)
    ensures
        r@ == utf8_lossy(bytes@),
        valid_utf8(bytes@) ==> r@ == decode_utf8(bytes@),
{
    String::from_utf8_lossy(bytes).into_owned()
}

/// The text of `bytes`: their decoding where they are UTF-8, else what stands for them.
pub open spec fn bytes_text(bytes: Seq<u8>) -> Seq<char> {
    if valid_utf8(bytes) {
        decode_utf8(bytes)
    } else {
        utf8_lossy(bytes)
    }
}

/// What the string at `pos` is, and where the next byte stands.
pub open spec fn rd_string(b: Seq<u8>, pos: int) -> Result<(Seq<char>, int), GgufError> {
    match rd_u64(b, pos) {
        Err(e) => Err(e),
        Ok((len, p)) => if len > GGUF_MAX_STRING_LENGTH {
            Err(GgufError::StringLength { len })
        } else if len > b.len() - p {
            Err(GgufError::StringBytes { len, left: (b.len() - p) as u64 })
        } else {
            Ok((bytes_text(strip_zeros(b.subrange(p, p + len))), p + len))
        },
    }
}

/// What the value of type `ty` at `pos` is, where the next byte stands, and how
/// many array elements the file may still hold. `depth` counts the arrays around
/// the value, `budget` the elements left before it.
pub open spec fn rd_value(
    b: Seq<u8>,
    pos: int,
    ty: ValueType,
    depth: nat,
    budget: nat,
) -> Result<(ValueModel, int, nat), GgufError>
    decreases 66 - depth, 0nat,
{
    if depth > GGUF_MAX_VALUE_DEPTH {
        Err(GgufError::Depth)
    } else {
        match ty {
            ValueType::U8 => match rd_u8(b, pos) {
                Ok((v, p)) => Ok((ValueModel::U8(v), p, budget)),
                Err(e) => Err(e),
            },
            ValueType::I8 => match rd_u8(b, pos) {
                Ok((v, p)) => Ok((ValueModel::I8(signed(v)), p, budget)),
                Err(e) => Err(e),
            },
            ValueType::U16 => match rd_u16(b, pos) {
                Ok((v, p)) => Ok((ValueModel::U16(v), p, budget)),
                Err(e) => Err(e),
            },
            ValueType::I16 => match rd_u16(b, pos) {
                Ok((v, p)) => Ok((ValueModel::I16(signed16(v)), p, budget)),
                Err(e) => Err(e),
            },
            ValueType::U32 => match rd_u32(b, pos) {
                Ok((v, p)) => Ok((ValueModel::U32(v), p, budget)),
                Err(e) => Err(e),
            },
            ValueType::I32 => match rd_u32(b, pos) {
                Ok((v, p)) => Ok((ValueModel::I32(signed32(v)), p, budget)),
                Err(e) => Err(e),
            },
            ValueType::U64 => match rd_u64(b, pos) {
                Ok((v, p)) => Ok((ValueModel::U64(v), p, budget)),
                Err(e) => Err(e),
            },
            ValueType::I64 => match rd_u64(b, pos) {
                Ok((v, p)) => Ok((ValueModel::I64(signed64(v)), p, budget)),
                Err(e) => Err(e),
            },
            ValueType::F32 => match rd_u32(b, pos) {
                Ok((v, p)) => Ok((ValueModel::F32(v), p, budget)),
                Err(e) => Err(e),
            },
            ValueType::F64 => match rd_u64(b, pos) {
                Ok((v, p)) => Ok((ValueModel::F64(v), p, budget)),
                Err(e) => Err(e),
            },
            ValueType::Bool => match rd_u8(b, pos) {
                Ok((v, p)) => if v <= 1 {
                    Ok((ValueModel::Bool(v == 1), p, budget))
                } else {
                    Err(GgufError::Bool { byte: v })
                },
                Err(e) => Err(e),
            },
            ValueType::String => match rd_string(b, pos) {
                Ok((v, p)) => Ok((ValueModel::String(v), p, budget)),
                Err(e) => Err(e),
            },
            ValueType::Array => match rd_array_head(b, pos, budget) {
                Ok((element, len, p)) => match rd_values(
                    b,
                    p,
                    element,
                    depth + 1,
                    (budget - len) as nat,
                    len as nat,
                ) {
                    Ok((s, q, left)) => Ok((ValueModel::Array(s), q, left)),
                    Err(e) => Err(e),
                },
                Err(e) => Err(e),
            },
        }
    }
}

/// What the head of the array at `pos` is: element type, length, and where the
/// first element stands.
pub open spec fn rd_array_head(b: Seq<u8>, pos: int, budget: nat) -> Result<
    (ValueType, u64, int),
    GgufError,
> {
    match rd_u32(b, pos) {
        Err(e) => Err(e),
        Ok((id, p)) => match ValueType::of_id(id) {
            None => Err(GgufError::ValueType { id }),
            Some(element) => match rd_u64(b, p) {
                Err(e) => Err(e),
                Ok((len, q)) => if len > GGUF_MAX_ARRAY_ELEMENTS {
                    Err(GgufError::ArrayLength { len })
                } else if len > budget {
                    Err(GgufError::ElementBudget { len, left: budget as u64 })
                } else if len * element.least_bytes() > b.len() - q {
                    Err(
                        GgufError::ArrayBytes {
                            len,
                            needed: (len * element.least_bytes()) as u64,
                            left: (b.len() - q) as u64,
                        },
                    )
                } else {
                    Ok((element, len, q))
                },
            },
        },
    }
}

/// What the first `n` values of type `ty` from `pos` on are, one after the other.
pub open spec fn rd_values(
    b: Seq<u8>,
    pos: int,
    ty: ValueType,
    depth: nat,
    budget: nat,
    n: nat,
) -> Result<(Seq<ValueModel>, int, nat), GgufError>
    decreases 66 - depth, n,
{
    if n == 0 {
        Ok((Seq::empty(), pos, budget))
    } else {
        match rd_values(b, pos, ty, depth, budget, (n - 1) as nat) {
            Err(e) => Err(e),
            Ok((s, p, left)) => match rd_value(b, p, ty, depth, left) {
                Err(e) => Err(e),
                Ok((v, q, rest)) => Ok((s.push(v), q, rest)),
            },
        }
    }
}

/// Where the first `k` values cannot be read, no more can.
proof fn lemma_values_error(
    b: Seq<u8>,
    pos: int,
    ty: ValueType,
    depth: nat,
    budget: nat,
    k: nat,
    n: nat,
)
    requires
        k <= n,
        rd_values(b, pos, ty, depth, budget, k) is Err,
    ensures
        rd_values(b, pos, ty, depth, budget, n) == rd_values(b, pos, ty, depth, budget, k),
    decreases n,
{
    if k < n {
        lemma_values_error(b, pos, ty, depth, budget, k, (n - 1) as nat);
    }
}

/// A cursor over the bytes of a file.
pub struct Reader<'a> {
    pub bytes: &'a [u8],
    pub pos: usize,
}

impl<'a> Reader<'a> {
    /// The cursor stands in the file or at its end.
    pub open spec fn wf(&self) -> bool {
        self.pos <= self.bytes.len()
    }

    /// After a call that gave `r`: the same file, and the cursor where `pos` says.
    pub open spec fn moved(&self, old: Self, pos: int) -> bool {
        self.bytes == old.bytes && self.pos == pos && self.wf()
    }

    /// Bytes that are left.
    pub fn remaining(&self) -> (r: u64)
        requires
            self.wf(),
        ensures
            r == self.bytes@.len() - self.pos,
    {
        (self.bytes.len() - self.pos) as u64
    }

    /// Reads one byte.
    pub fn read_u8(&mut self) -> (r: Result<u8, GgufError>)
        requires
            old(self).wf(),
        ensures
            match r {
                Ok(v) => rd_u8(old(self).bytes@, old(self).pos as int) == Ok::<
                    (u8, int),
                    GgufError,
                >((v, final(self).pos as int)) && final(self).moved(
                    *old(self),
                    final(self).pos as int,
                ),
                Err(e) => rd_u8(old(self).bytes@, old(self).pos as int) == Err::<
                    (u8, int),
                    GgufError,
                >(e) && *final(self) == *old(self),
            },
    {
        if self.bytes.len() - self.pos < 1 {
            return Err(GgufError::Truncated);
        }
        let v: u8 = self.bytes[self.pos];
        self.pos = self.pos + 1;
        Ok(v)
    }

    /// Reads a 16-bit number.
    pub fn read_u16(&mut self) -> (r: Result<u16, GgufError>)
        requires
            old(self).wf(),
        ensures
            match r {
                Ok(v) => rd_u16(old(self).bytes@, old(self).pos as int) == Ok::<
                    (u16, int),
                    GgufError,
                >((v, final(self).pos as int)) && final(self).moved(
                    *old(self),
                    final(self).pos as int,
                ),
                Err(e) => rd_u16(old(self).bytes@, old(self).pos as int) == Err::<
                    (u16, int),
                    GgufError,
                >(e) && *final(self) == *old(self),
            },
    {
        if self.bytes.len() - self.pos < 2 {
            return Err(GgufError::Truncated);
        }
        let v: u16 = crate::dequant::read_u16(self.bytes, self.pos);
        self.pos = self.pos + 2;
        Ok(v)
    }

    /// Reads a 32-bit number.
    pub fn read_u32(&mut self) -> (r: Result<u32, GgufError>)
        requires
            old(self).wf(),
        ensures
            match r {
                Ok(v) => rd_u32(old(self).bytes@, old(self).pos as int) == Ok::<
                    (u32, int),
                    GgufError,
                >((v, final(self).pos as int)) && final(self).moved(
                    *old(self),
                    final(self).pos as int,
                ),
                Err(e) => rd_u32(old(self).bytes@, old(self).pos as int) == Err::<
                    (u32, int),
                    GgufError,
                >(e) && *final(self) == *old(self),
            },
    {
        if self.bytes.len() - self.pos < 4 {
            return Err(GgufError::Truncated);
        }
        let v: u32 = crate::dequant::read_u32(self.bytes, self.pos);
        self.pos = self.pos + 4;
        Ok(v)
    }

    /// Reads a 64-bit number.
    pub fn read_u64(&mut self) -> (r: Result<u64, GgufError>)
        requires
            old(self).wf(),
        ensures
            match r {
                Ok(v) => rd_u64(old(self).bytes@, old(self).pos as int) == Ok::<
                    (u64, int),
                    GgufError,
                >((v, final(self).pos as int)) && final(self).moved(
                    *old(self),
                    final(self).pos as int,
                ),
                Err(e) => rd_u64(old(self).bytes@, old(self).pos as int) == Err::<
                    (u64, int),
                    GgufError,
                >(e) && *final(self) == *old(self),
            },
    {
        if self.bytes.len() - self.pos < 8 {
            return Err(GgufError::Truncated);
        }
        let low: u32 = crate::dequant::read_u32(self.bytes, self.pos);
        let high: u32 = crate::dequant::read_u32(self.bytes, self.pos + 4);
        self.pos = self.pos + 8;
        Ok(low as u64 + 0x1_0000_0000 * (high as u64))
    }

    /// Reads a string: its length, then its bytes; zero bytes at its end do not
    /// belong to it.
    pub fn read_string(&mut self) -> (r: Result<String, GgufError>)
        requires
            old(self).wf(),
        ensures
            match r {
                Ok(v) => rd_string(old(self).bytes@, old(self).pos as int) == Ok::<
                    (Seq<char>, int),
                    GgufError,
                >((v@, final(self).pos as int)) && final(self).moved(
                    *old(self),
                    final(self).pos as int,
                ),
                Err(e) => rd_string(old(self).bytes@, old(self).pos as int) == Err::<
                    (Seq<char>, int),
                    GgufError,
                >(e),
            },
            final(self).bytes == old(self).bytes,
            old(self).pos <= final(self).pos <= final(self).bytes.len(),
    {
        let len: u64 = self.read_u64()?;
        if len > GGUF_MAX_STRING_LENGTH {
            return Err(GgufError::StringLength { len });
        }
        let left: u64 = self.remaining();
        if len > left {
            return Err(GgufError::StringBytes { len, left });
        }
        let start: usize = self.pos;
        let end: usize = start + len as usize;
        let mut last: usize = end;
        let ghost whole = self.bytes@.subrange(start as int, end as int);
        while last > start && self.bytes[last - 1] == 0
            invariant
                start <= last <= end <= self.bytes.len(),
                whole == self.bytes@.subrange(start as int, end as int),
                strip_zeros(whole) == strip_zeros(
                    self.bytes@.subrange(start as int, last as int),
                ),
            decreases last,
        {
            proof {
                let t = self.bytes@.subrange(start as int, last as int);
                assert(t.drop_last() =~= self.bytes@.subrange(start as int, last - 1));
            }
            last = last - 1;
        }
        self.pos = end;
        Ok(string_from_utf8_lossy(vstd::slice::slice_subrange(self.bytes, start, last)))
    }
}

/// Reads the head of an array and takes its elements from the budget.
fn read_array_head(reader: &mut Reader<'_>, element_budget: &mut u64) -> (r: Result<
    (ValueType, u64),
    GgufError,
>)
    requires
        old(reader).wf(),
    ensures
        match r {
            Ok((element, len)) => rd_array_head(
                old(reader).bytes@,
                old(reader).pos as int,
                *old(element_budget) as nat,
            ) == Ok::<(ValueType, u64, int), GgufError>((element, len, final(reader).pos as int))
                && final(reader).moved(*old(reader), final(reader).pos as int)
                && *final(element_budget) == *old(element_budget) - len,
            Err(e) => rd_array_head(
                old(reader).bytes@,
                old(reader).pos as int,
                *old(element_budget) as nat,
            ) == Err::<(ValueType, u64, int), GgufError>(e),
        },
        final(reader).bytes == old(reader).bytes,
        old(reader).pos <= final(reader).pos <= final(reader).bytes.len(),
        *final(element_budget) <= *old(element_budget),
{
    let id: u32 = reader.read_u32()?;
    let element: ValueType = ValueType::from_u32(id)?;
    let len: u64 = reader.read_u64()?;
    if len > GGUF_MAX_ARRAY_ELEMENTS {
        return Err(GgufError::ArrayLength { len });
    }
    if len > *element_budget {
        return Err(GgufError::ElementBudget { len, left: *element_budget });
    }
    *element_budget = *element_budget - len;
    let size: u64 = element.min_disk_size();
    assert(len * size <= 0x4000_0000 * 12) by (nonlinear_arith)
        requires
            len <= 0x4000_0000,
            size <= 12,
    ;
    let needed: u64 = len * size;
    let left: u64 = reader.remaining();
    if needed > left {
        return Err(GgufError::ArrayBytes { len, needed, left });
    }
    Ok((element, len))
}

/// Reads a value of type `value_type`. `depth` counts the arrays around it;
/// `element_budget` is what the file may still hold of array elements.
pub fn read_value(
    reader: &mut Reader<'_>,
    value_type: ValueType,
    depth: usize,
    element_budget: &mut u64,
) -> (r: Result<Value, GgufError>)
    requires
        old(reader).wf(),
    ensures
        match r {
            Ok(v) => rd_value(
                old(reader).bytes@,
                old(reader).pos as int,
                value_type,
                depth as nat,
                *old(element_budget) as nat,
            ) == Ok::<(ValueModel, int, nat), GgufError>(
                (v@, final(reader).pos as int, *final(element_budget) as nat),
            ) && final(reader).moved(*old(reader), final(reader).pos as int),
            Err(e) => rd_value(
                old(reader).bytes@,
                old(reader).pos as int,
                value_type,
                depth as nat,
                *old(element_budget) as nat,
            ) == Err::<(ValueModel, int, nat), GgufError>(e),
        },
        depth > GGUF_MAX_VALUE_DEPTH ==> *final(reader) == *old(reader) && *final(element_budget)
            == *old(element_budget),
        !(value_type is Array) ==> *final(element_budget) == *old(element_budget),
        final(reader).bytes == old(reader).bytes,
        old(reader).pos <= final(reader).pos <= final(reader).bytes.len(),
        *final(element_budget) <= *old(element_budget),
    decreases GGUF_MAX_VALUE_DEPTH + 1 - depth,
{
    if depth > GGUF_MAX_VALUE_DEPTH {
        return Err(GgufError::Depth);
    }
    let value = match value_type {
        ValueType::U8 => Value::U8(reader.read_u8()?),
        ValueType::I8 => Value::I8(signed_byte(reader.read_u8()?)),
        ValueType::U16 => Value::U16(reader.read_u16()?),
        ValueType::I16 => {
            let v: u16 = reader.read_u16()?;
            Value::I16(
                if v < 0x8000 {
                    v as i16
                } else {
                    (v as i32 - 0x1_0000) as i16
                },
            )
        },
        ValueType::U32 => Value::U32(reader.read_u32()?),
        ValueType::I32 => {
            let v: u32 = reader.read_u32()?;
            Value::I32(
                if v < 0x8000_0000 {
                    v as i32
                } else {
                    (v as i64 - 0x1_0000_0000) as i32
                },
            )
        },
        ValueType::U64 => Value::U64(reader.read_u64()?),
        ValueType::I64 => {
            let v: u64 = reader.read_u64()?;
            Value::I64(
                if v < 0x8000_0000_0000_0000 {
                    v as i64
                } else {
                    (v as i128 - 0x1_0000_0000_0000_0000) as i64
                },
            )
        },
        ValueType::F32 => Value::F32(reader.read_u32()?),
        ValueType::F64 => Value::F64(reader.read_u64()?),
        ValueType::Bool => {
            let v: u8 = reader.read_u8()?;
            if v > 1 {
                return Err(GgufError::Bool { byte: v });
            }
            Value::Bool(v == 1)
        },
        ValueType::String => Value::String(reader.read_string()?),
        ValueType::Array => {
            let ghost b = reader.bytes@;
            let (element, len) = read_array_head(reader, element_budget)?;
            let ghost first = reader.pos as int;
            let ghost budget = *element_budget as nat;
            let ghost moved = *reader;
            let mut values: Vec<Value> = Vec::new();
            let mut i: u64 = 0;
            assert(models(values@) =~= Seq::empty());
            while i < len
                invariant
                    i <= len,
                    depth <= GGUF_MAX_VALUE_DEPTH,
                    reader.moved(moved, reader.pos as int),
                    old(reader).pos <= reader.pos,
                    old(reader).bytes == moved.bytes,
                    *element_budget <= *old(element_budget),
                    moved.bytes@ == b,
                    rd_values(b, first, element, depth as nat + 1, budget, i as nat) == Ok::<
                        (Seq<ValueModel>, int, nat),
                        GgufError,
                    >((models(values@), reader.pos as int, *element_budget as nat)),
                    rd_array_head(old(reader).bytes@, old(reader).pos as int, *old(
                        element_budget,
                    ) as nat) == Ok::<(ValueType, u64, int), GgufError>((element, len, first)),
                    budget == *old(element_budget) - len,
                    b == old(reader).bytes@,
                    value_type is Array,
                decreases len - i,
            {
                match read_value(reader, element, depth + 1, element_budget) {
                    Ok(v) => {
                        let ghost was = models(values@);
                        values.push(v);
                        assert(models(values@) =~= was.push(v@));
                    },
                    Err(e) => {
                        proof {
                            lemma_values_error(
                                b,
                                first,
                                element,
                                depth as nat + 1,
                                budget,
                                i as nat + 1,
                                len as nat,
                            );
                        }
                        return Err(e);
                    },
                }
                i = i + 1;
            }
            let value = Value::Array(values);
            proof {
                lemma_array_model(value);
            }
            value
        },
    };
    Ok(value)
}

impl Value {
    /// The value as an unsigned number.
    pub open spec fn unsigned(self) -> Option<u64> {
        match self {
            Value::U8(v) => Some(v as u64),
            Value::U16(v) => Some(v as u64),
            Value::U32(v) => Some(v as u64),
            Value::U64(v) => Some(v),
            Value::Bool(v) => Some(
                if v {
                    1
                } else {
                    0
                },
            ),
            _ => None,
        }
    }

    /// The value as an unsigned 32-bit number.
    pub fn to_u32(&self) -> (r: Result<u32, GgufError>)
        ensures
            r == (match self.unsigned() {
                None => Err::<u32, GgufError>(GgufError::NotUnsigned),
                Some(v) => if v > u32::MAX {
                    Err(GgufError::NotU32 { value: v })
                } else {
                    Ok(v as u32)
                },
            }),
    {
        let value: u64 = self.to_u64()?;
        if value > u32::MAX as u64 {
            return Err(GgufError::NotU32 { value });
        }
        Ok(value as u32)
    }

    /// The value as an unsigned number.
    pub fn to_u64(&self) -> (r: Result<u64, GgufError>)
        ensures
            r == (match self.unsigned() {
                None => Err::<u64, GgufError>(GgufError::NotUnsigned),
                Some(v) => Ok(v),
            }),
    {
        match self {
            Value::U8(v) => Ok(*v as u64),
            Value::U16(v) => Ok(*v as u64),
            Value::U32(v) => Ok(*v as u64),
            Value::U64(v) => Ok(*v),
            Value::Bool(v) => Ok(
                if *v {
                    1
                } else {
                    0
                },
            ),
            _ => Err(GgufError::NotUnsigned),
        }
    }

    /// The value as a floating-point number, in the width in which the file holds it.
    pub fn to_f32(&self) -> (r: Result<Float, GgufError>)
        ensures
            r == (match *self {
                Value::F32(bits) => Ok::<Float, GgufError>(Float::Single { bits }),
                Value::F64(bits) => Ok(Float::Double { bits }),
                _ => Err(GgufError::NotFloat),
            }),
    {
        match self {
            Value::F32(bits) => Ok(Float::Single { bits: *bits }),
            Value::F64(bits) => Ok(Float::Double { bits: *bits }),
            _ => Err(GgufError::NotFloat),
        }
    }

    /// The value as a truth value.
    pub fn to_bool(&self) -> (r: Result<bool, GgufError>)
        ensures
            r == (match *self {
                Value::Bool(v) => Ok::<bool, GgufError>(v),
                _ => Err(GgufError::NotBool),
            }),
    {
        match self {
            Value::Bool(v) => Ok(*v),
            _ => Err(GgufError::NotBool),
        }
    }

    /// The value as text.
    pub fn to_string(&self) -> (r: Result<&str, GgufError>)
        ensures
            match r {
                Ok(t) => self@ == ValueModel::String(t@),
                Err(e) => !(self@ is String) && e == GgufError::NotString,
            },
    {
        match self {
            Value::String(v) => Ok(v.as_str()),
            _ => Err(GgufError::NotString),
        }
    }

    /// The value as an array.
    pub fn as_array(&self) -> (r: Result<&[Value], GgufError>)
        ensures
            match r {
                Ok(v) => *self is Array && v@ == self->Array_0@,
                Err(e) => !(*self is Array) && e == GgufError::NotArray,
            },
    {
        match self {
            Value::Array(v) => Ok(v.as_slice()),
            _ => Err(GgufError::NotArray),
        }
    }
}

/// A tensor of a file: its name, element type, shape (outermost dimension first)
/// and where its bytes start in the tensor data.
#[derive(Debug)]
pub struct TensorInfo {
    pub name: String,
    pub dtype: GgmlType,
    pub shape: Vec<usize>,
    pub offset: u64,
}

/// What a tensor description is.
#[verifier::ext_equal]
pub struct TensorModel {
    pub name: Seq<char>,
    pub dtype: GgmlType,
    pub shape: Seq<usize>,
    pub offset: u64,
}

impl View for TensorInfo {
    type V = TensorModel;

    open spec fn view(&self) -> TensorModel {
        TensorModel {
            name: self.name@,
            dtype: self.dtype,
            shape: self.shape@,
            offset: self.offset,
        }
    }
}

/// The product of the dimensions, where it and the product of every prefix of them
/// fit in `usize`.
pub open spec fn dims_product(s: Seq<usize>) -> Option<usize>
    decreases s.len(),
{
    if s.len() == 0 {
        Some(1)
    } else {
        match dims_product(s.drop_last()) {
            None => None,
            Some(p) => if p * s.last() <= usize::MAX {
                Some((p * s.last()) as usize)
            } else {
                None
            },
        }
    }
}

/// Where a prefix of the dimensions overflows, all of them do.
proof fn lemma_dims_prefix(s: Seq<usize>, k: int)
    requires
        0 <= k <= s.len(),
        dims_product(s.subrange(0, k)) is None,
    ensures
        dims_product(s) is None,
    decreases s.len() - k,
{
    if k < s.len() {
        assert(s.subrange(0, k + 1).drop_last() =~= s.subrange(0, k));
        lemma_dims_prefix(s, k + 1);
    } else {
        assert(s.subrange(0, k) =~= s);
    }
}

/// The product of dimensions, `None` where it does not fit.
pub fn product_of_dims(dims: &[usize]) -> (r: Option<usize>)
    ensures
        r == dims_product(dims@),
{
    let mut total: usize = 1;
    let mut i: usize = 0;
    assert(dims@.subrange(0, 0) =~= Seq::empty());
    while i < dims.len()
        invariant
            i <= dims.len(),
            dims_product(dims@.subrange(0, i as int)) == Some(total),
        decreases dims.len() - i,
    {
        proof {
            assert(dims@.subrange(0, i + 1).drop_last() =~= dims@.subrange(0, i as int));
        }
        match total.checked_mul(dims[i]) {
            Some(p) => {
                total = p;
            },
            None => {
                proof {
                    lemma_dims_prefix(dims@, i + 1);
                }
                return None;
            },
        }
        i = i + 1;
    }
    assert(dims@.subrange(0, dims@.len() as int) =~= dims@);
    Some(total)
}

impl TensorModel {
    /// Bytes of the tensor.
    pub open spec fn byte_size(self) -> Result<usize, GgufError> {
        match dims_product(self.shape) {
            None => Err(GgufError::ElementOverflow),
            Some(n) => if n as nat % self.dtype.block_elems() != 0 {
                Err(GgufError::PartialBlock { elem_count: n, dtype: self.dtype })
            } else if n as nat / self.dtype.block_elems() * self.dtype.block_bytes()
                > usize::MAX {
                Err(GgufError::ByteOverflow)
            } else {
                Ok((n as nat / self.dtype.block_elems() * self.dtype.block_bytes()) as usize)
            },
        }
    }
}

impl TensorInfo {
    /// Number of elements.
    pub fn elem_count(&self) -> (r: Result<usize, GgufError>)
        ensures
            r == (match dims_product(self@.shape) {
                Some(n) => Ok::<usize, GgufError>(n),
                None => Err(GgufError::ElementOverflow),
            }),
    {
        match product_of_dims(self.shape.as_slice()) {
            Some(n) => Ok(n),
            None => Err(GgufError::ElementOverflow),
        }
    }

    /// Number of bytes.
    pub fn size_in_bytes(&self) -> (r: Result<usize, GgufError>)
        ensures
            r == self@.byte_size(),
    {
        let elem_count: usize = self.elem_count()?;
        let block: usize = self.dtype.block_size();
        if elem_count % block != 0 {
            return Err(GgufError::PartialBlock { elem_count, dtype: self.dtype });
        }
        let blocks: usize = elem_count / block;
        match blocks.checked_mul(self.dtype.type_size()) {
            Some(bytes) => Ok(bytes),
            None => Err(GgufError::ByteOverflow),
        }
    }
}

/// What a file's head says.
#[derive(Debug)]
pub struct Content {
    pub version: Version,
    pub metadata: NameMap<Value>,
    pub tensor_infos: NameMap<TensorInfo>,
    pub tensor_data_offset: u64,
}

/// What the head of a file is.
#[verifier::ext_equal]
pub struct ContentModel {
    pub version: Version,
    pub metadata: Seq<(Seq<char>, ValueModel)>,
    pub tensor_infos: Seq<(Seq<char>, TensorModel)>,
    pub tensor_data_offset: u64,
}

impl View for Content {
    type V = ContentModel;

    open spec fn view(&self) -> ContentModel {
        ContentModel {
            version: self.version,
            metadata: self.metadata@,
            tensor_infos: self.tensor_infos@,
            tensor_data_offset: self.tensor_data_offset,
        }
    }
}

impl Content {
    /// The metadata value under `key`.
    pub fn metadata_required(&self, key: &str) -> (r: Result<&Value, GgufError>)
        ensures
            match r {
                Ok(v) => lookup(self@.metadata, key@) == Some(v@),
                Err(e) => lookup(self@.metadata, key@) is None && e == GgufError::NoMetadata,
            },
    {
        match self.metadata.get(key) {
            Some(v) => Ok(v),
            None => Err(GgufError::NoMetadata),
        }
    }

    /// The tensor of this name.
    pub fn tensor_info(&self, name: &str) -> (r: Result<&TensorInfo, GgufError>)
        ensures
            match r {
                Ok(v) => lookup(self@.tensor_infos, name@) == Some(v@),
                Err(e) => lookup(self@.tensor_infos, name@) is None && e == GgufError::NoTensor,
            },
    {
        match self.tensor_infos.get(name) {
            Some(v) => Ok(v),
            None => Err(GgufError::NoTensor),
        }
    }

    /// Whether the file has a tensor of this name.
    pub fn has_tensor(&self, name: &str) -> (r: bool)
        ensures
            r == (lookup(self@.tensor_infos, name@) is Some),
    {
        self.tensor_infos.contains(name)
    }
}

/// What the metadata entry at `pos` is.
pub open spec fn rd_entry(b: Seq<u8>, pos: int, budget: nat) -> Result<
    ((Seq<char>, ValueModel), int, nat),
    GgufError,
> {
    match rd_string(b, pos) {
        Err(e) => Err(e),
        Ok((key, p)) => match rd_u32(b, p) {
            Err(e) => Err(e),
            Ok((id, q)) => match ValueType::of_id(id) {
                None => Err(GgufError::ValueType { id }),
                Some(ty) => match rd_value(b, q, ty, 0, budget) {
                    Err(e) => Err(e),
                    Ok((v, end, left)) => Ok(((key, v), end, left)),
                },
            },
        },
    }
}

/// What the first `n` metadata entries from `pos` on are, in file order.
pub open spec fn rd_entries(b: Seq<u8>, pos: int, budget: nat, n: nat) -> Result<
    (Seq<(Seq<char>, ValueModel)>, int, nat),
    GgufError,
>
    decreases n,
{
    if n == 0 {
        Ok((Seq::empty(), pos, budget))
    } else {
        match rd_entries(b, pos, budget, (n - 1) as nat) {
            Err(e) => Err(e),
            Ok((s, p, left)) => match rd_entry(b, p, left) {
                Err(e) => Err(e),
                Ok((entry, q, rest)) => Ok((s.push(entry), q, rest)),
            },
        }
    }
}

/// What the first `n` dimensions from `pos` on are.
pub open spec fn rd_dims(b: Seq<u8>, pos: int, n: nat) -> Result<(Seq<usize>, int), GgufError>
    decreases n,
{
    if n == 0 {
        Ok((Seq::empty(), pos))
    } else {
        match rd_dims(b, pos, (n - 1) as nat) {
            Err(e) => Err(e),
            Ok((s, p)) => match rd_u64(b, p) {
                Err(e) => Err(e),
                Ok((dim, q)) => if dim > usize::MAX {
                    Err(GgufError::DimensionRange { dim })
                } else {
                    Ok((s.push(dim as usize), q))
                },
            },
        }
    }
}

/// What the tensor description at `pos` is. The file holds the innermost dimension
/// first; a shape has it last.
pub open spec fn rd_tensor(b: Seq<u8>, pos: int) -> Result<(TensorModel, int), GgufError> {
    match rd_string(b, pos) {
        Err(e) => Err(e),
        Ok((name, p)) => match rd_u32(b, p) {
            Err(e) => Err(e),
            Ok((count, q)) => if count > GGUF_MAX_TENSOR_DIMS {
                Err(GgufError::Dimensions { count })
            } else {
                match rd_dims(b, q, count as nat) {
                    Err(e) => Err(e),
                    Ok((dims, r)) => match rd_u32(b, r) {
                        Err(e) => Err(e),
                        Ok((id, t)) => match GgmlType::of_id(id) {
                            None => Err(GgufError::ElementType { id }),
                            Some(dtype) => match rd_u64(b, t) {
                                Err(e) => Err(e),
                                Ok((offset, end)) => Ok(
                                    (
                                        TensorModel { name, dtype, shape: dims.reverse(), offset },
                                        end,
                                    ),
                                ),
                            },
                        },
                    },
                }
            },
        },
    }
}

/// What the first `n` tensor descriptions from `pos` on are, in file order.
pub open spec fn rd_tensors(b: Seq<u8>, pos: int, n: nat) -> Result<
    (Seq<(Seq<char>, TensorModel)>, int),
    GgufError,
>
    decreases n,
{
    if n == 0 {
        Ok((Seq::empty(), pos))
    } else {
        match rd_tensors(b, pos, (n - 1) as nat) {
            Err(e) => Err(e),
            Ok((s, p)) => match rd_tensor(b, p) {
                Err(e) => Err(e),
                Ok((t, q)) => Ok((s.push((t.name, t)), q)),
            },
        }
    }
}

/// The table that entries in file order make: a later entry replaces an earlier one
/// of the same name.
pub open spec fn bind_all<V>(s: Seq<(Seq<char>, V)>) -> Seq<(Seq<char>, V)>
    decreases s.len(),
{
    if s.len() == 0 {
        Seq::empty()
    } else {
        bind(bind_all(s.drop_last()), s.last().0, s.last().1)
    }
}

/// The alignment that `general.alignment` asks for: a number that is not negative,
/// else the default.
pub open spec fn alignment_of(v: Option<ValueModel>) -> u64 {
    match v {
        Some(ValueModel::U8(x)) => x as u64,
        Some(ValueModel::U16(x)) => x as u64,
        Some(ValueModel::U32(x)) => x as u64,
        Some(ValueModel::U64(x)) => x,
        Some(ValueModel::I8(x)) => if x >= 0 {
            x as u64
        } else {
            DEFAULT_ALIGNMENT
        },
        Some(ValueModel::I16(x)) => if x >= 0 {
            x as u64
        } else {
            DEFAULT_ALIGNMENT
        },
        Some(ValueModel::I32(x)) => if x >= 0 {
            x as u64
        } else {
            DEFAULT_ALIGNMENT
        },
        Some(ValueModel::I64(x)) => if x >= 0 {
            x as u64
        } else {
            DEFAULT_ALIGNMENT
        },
        _ => DEFAULT_ALIGNMENT,
    }
}

/// The first multiple of `alignment` that is not below `position`.
pub open spec fn align_up(position: int, alignment: int) -> int {
    (position + alignment - 1) / alignment * alignment
}

/// Aligning gives the least multiple of the alignment that is not below the position.
pub proof fn law_align_up(position: int, alignment: int)
    requires
        position >= 0,
        alignment > 0,
    ensures
        align_up(position, alignment) % alignment == 0,
        position <= align_up(position, alignment) < position + alignment,
{
    let q = (position + alignment - 1) / alignment;
    vstd::arithmetic::div_mod::lemma_mod_multiples_basic(q, alignment);
    vstd::arithmetic::div_mod::lemma_fundamental_div_mod(position + alignment - 1, alignment);
    vstd::arithmetic::div_mod::lemma_mod_bound(position + alignment - 1, alignment);
    vstd::arithmetic::mul::lemma_mul_is_commutative(q, alignment);
}

/// The first multiple of `alignment` that is not below `position`.
pub fn align_to(position: u64, alignment: u64) -> (r: Result<u64, GgufError>)
    requires
        alignment > 0,
    ensures
        r == (if position + alignment - 1 > u64::MAX {
            Err::<u64, GgufError>(GgufError::AlignmentOverflow)
        } else {
            Ok(align_up(position as int, alignment as int) as u64)
        }),
{
    match position.checked_add(alignment - 1) {
        Some(x) => {
            proof {
                law_align_up(position as int, alignment as int);
                vstd::arithmetic::div_mod::lemma_fundamental_div_mod(
                    x as int,
                    alignment as int,
                );
                vstd::arithmetic::mul::lemma_mul_is_commutative(
                    x as int / alignment as int,
                    alignment as int,
                );
                vstd::arithmetic::div_mod::lemma_mod_bound(x as int, alignment as int);
            }
            Ok(x / alignment * alignment)
        },
        None => Err(GgufError::AlignmentOverflow),
    }
}

/// What the tables of a file are, given the counts of its head: metadata, tensors
/// and where the tensor data starts.
pub open spec fn rd_tables(
    b: Seq<u8>,
    version: Version,
    tensor_count: u64,
    metadata_count: u64,
) -> Result<ContentModel, GgufError> {
    match rd_entries(b, 24, GGUF_MAX_METADATA_ELEMENTS as nat, metadata_count as nat) {
        Err(e) => Err(e),
        Ok((entries, p, _)) => match rd_tensors(b, p, tensor_count as nat) {
            Err(e) => Err(e),
            Ok((tensors, q)) => {
                let metadata = bind_all(entries);
                let alignment = alignment_of(lookup(metadata, "general.alignment"@));
                let offset = align_up(q, alignment as int);
                if alignment == 0 {
                    Err(GgufError::ZeroAlignment)
                } else if q + alignment - 1 > u64::MAX {
                    Err(GgufError::AlignmentOverflow)
                } else if offset > b.len() {
                    Err(
                        GgufError::DataOffset {
                            offset: offset as u64,
                            file_size: b.len() as u64,
                        },
                    )
                } else {
                    Ok(
                        ContentModel {
                            version,
                            metadata,
                            tensor_infos: bind_all(tensors),
                            tensor_data_offset: offset as u64,
                        },
                    )
                }
            },
        },
    }
}

/// What the head of a file is.
pub open spec fn rd_content(b: Seq<u8>) -> Result<ContentModel, GgufError> {
    match rd_u32(b, 0) {
        Err(e) => Err(e),
        Ok((magic, _)) => if magic != 0x4655_4747 {
            Err(GgufError::Magic { magic })
        } else {
            match rd_u32(b, 4) {
                Err(e) => Err(e),
                Ok((version, _)) => if version != 2 && version != 3 {
                    Err(GgufError::Version { version })
                } else {
                    match (rd_u64(b, 8), rd_u64(b, 16)) {
                        (Err(e), _) => Err(e),
                        (_, Err(e)) => Err(e),
                        (Ok((tensors, _)), Ok((entries, _))) => if tensors
                            > GGUF_MAX_ARRAY_ELEMENTS {
                            Err(GgufError::TensorCount { count: tensors })
                        } else if entries > GGUF_MAX_ARRAY_ELEMENTS {
                            Err(GgufError::MetadataCount { count: entries })
                        } else {
                            rd_tables(
                                b,
                                if version == 2 {
                                    Version::V2
                                } else {
                                    Version::V3
                                },
                                tensors,
                                entries,
                            )
                        },
                    }
                },
            }
        },
    }
}

proof fn lemma_entries_error(b: Seq<u8>, pos: int, budget: nat, k: nat, n: nat)
    requires
        k <= n,
        rd_entries(b, pos, budget, k) is Err,
    ensures
        rd_entries(b, pos, budget, n) == rd_entries(b, pos, budget, k),
    decreases n,
{
    if k < n {
        lemma_entries_error(b, pos, budget, k, (n - 1) as nat);
    }
}

proof fn lemma_tensors_error(b: Seq<u8>, pos: int, k: nat, n: nat)
    requires
        k <= n,
        rd_tensors(b, pos, k) is Err,
    ensures
        rd_tensors(b, pos, n) == rd_tensors(b, pos, k),
    decreases n,
{
    if k < n {
        lemma_tensors_error(b, pos, k, (n - 1) as nat);
    }
}

proof fn lemma_dims_error(b: Seq<u8>, pos: int, k: nat, n: nat)
    requires
        k <= n,
        rd_dims(b, pos, k) is Err,
    ensures
        rd_dims(b, pos, n) == rd_dims(b, pos, k),
    decreases n,
{
    if k < n {
        lemma_dims_error(b, pos, k, (n - 1) as nat);
    }
}

/// Reads one metadata entry.
fn read_entry(reader: &mut Reader<'_>, element_budget: &mut u64) -> (r: Result<
    (String, Value),
    GgufError,
>)
    requires
        old(reader).wf(),
    ensures
        match r {
            Ok((key, value)) => rd_entry(
                old(reader).bytes@,
                old(reader).pos as int,
                *old(element_budget) as nat,
            ) == Ok::<((Seq<char>, ValueModel), int, nat), GgufError>(
                ((key@, value@), final(reader).pos as int, *final(element_budget) as nat),
            ) && final(reader).moved(*old(reader), final(reader).pos as int),
            Err(e) => rd_entry(
                old(reader).bytes@,
                old(reader).pos as int,
                *old(element_budget) as nat,
            ) == Err::<((Seq<char>, ValueModel), int, nat), GgufError>(e),
        },
{
    let key: String = reader.read_string()?;
    let id: u32 = reader.read_u32()?;
    let value_type: ValueType = ValueType::from_u32(id)?;
    let value: Value = read_value(reader, value_type, 0, element_budget)?;
    Ok((key, value))
}

/// Reads `count` dimensions.
fn read_dims(reader: &mut Reader<'_>, count: u32) -> (r: Result<Vec<usize>, GgufError>)
    requires
        old(reader).wf(),
    ensures
        match r {
            Ok(v) => rd_dims(old(reader).bytes@, old(reader).pos as int, count as nat) == Ok::<
                (Seq<usize>, int),
                GgufError,
            >((v@, final(reader).pos as int)) && final(reader).moved(
                *old(reader),
                final(reader).pos as int,
            ),
            Err(e) => rd_dims(old(reader).bytes@, old(reader).pos as int, count as nat) == Err::<
                (Seq<usize>, int),
                GgufError,
            >(e),
        },
{
    let ghost b = reader.bytes@;
    let ghost first = reader.pos as int;
    let mut dims: Vec<usize> = Vec::new();
    let mut i: u32 = 0;
    while i < count
        invariant
            i <= count,
            reader.moved(*old(reader), reader.pos as int),
            b == old(reader).bytes@,
            first == old(reader).pos,
            rd_dims(b, first, i as nat) == Ok::<(Seq<usize>, int), GgufError>(
                (dims@, reader.pos as int),
            ),
        decreases count - i,
    {
        match reader.read_u64() {
            Ok(dim) => {
                if dim > usize::MAX as u64 {
                    proof {
                        lemma_dims_error(b, first, i as nat + 1, count as nat);
                    }
                    return Err(GgufError::DimensionRange { dim });
                }
                dims.push(dim as usize);
            },
            Err(e) => {
                proof {
                    lemma_dims_error(b, first, i as nat + 1, count as nat);
                }
                return Err(e);
            },
        }
        i = i + 1;
    }
    Ok(dims)
}

/// The items of `v` from the last to the first.
fn reversed(v: &[usize]) -> (r: Vec<usize>)
    ensures
        r@ == v@.reverse(),
{
    let mut r: Vec<usize> = Vec::new();
    let mut i: usize = v.len();
    while i > 0
        invariant
            i <= v.len(),
            r@.len() == v.len() - i,
            forall|k: int| 0 <= k < r@.len() ==> r@[k] == v@[v@.len() - 1 - k],
        decreases i,
    {
        i = i - 1;
        r.push(v[i]);
    }
    assert(r@ =~= v@.reverse());
    r
}

/// Reads one tensor description.
fn read_tensor(reader: &mut Reader<'_>) -> (r: Result<TensorInfo, GgufError>)
    requires
        old(reader).wf(),
    ensures
        match r {
            Ok(v) => rd_tensor(old(reader).bytes@, old(reader).pos as int) == Ok::<
                (TensorModel, int),
                GgufError,
            >((v@, final(reader).pos as int)) && final(reader).moved(
                *old(reader),
                final(reader).pos as int,
            ),
            Err(e) => rd_tensor(old(reader).bytes@, old(reader).pos as int) == Err::<
                (TensorModel, int),
                GgufError,
            >(e),
        },
{
    let name: String = reader.read_string()?;
    let count: u32 = reader.read_u32()?;
    if count > GGUF_MAX_TENSOR_DIMS {
        return Err(GgufError::Dimensions { count });
    }
    let dims: Vec<usize> = read_dims(reader, count)?;
    let shape: Vec<usize> = reversed(dims.as_slice());
    let id: u32 = reader.read_u32()?;
    let dtype: GgmlType = match GgmlType::from_u32(id) {
        Ok(t) => t,
        Err(_) => {
            return Err(GgufError::ElementType { id });
        },
    };
    let offset: u64 = reader.read_u64()?;
    Ok(TensorInfo { name, dtype, shape, offset })
}

/// The alignment that the metadata asks for.
fn alignment(metadata: &NameMap<Value>) -> (r: u64)
    ensures
        r == alignment_of(lookup(metadata@, "general.alignment"@)),
{
    match metadata.get("general.alignment") {
        Some(Value::U8(v)) => *v as u64,
        Some(Value::U16(v)) => *v as u64,
        Some(Value::U32(v)) => *v as u64,
        Some(Value::U64(v)) => *v,
        Some(Value::I8(v)) => if *v >= 0 {
            *v as u64
        } else {
            DEFAULT_ALIGNMENT
        },
        Some(Value::I16(v)) => if *v >= 0 {
            *v as u64
        } else {
            DEFAULT_ALIGNMENT
        },
        Some(Value::I32(v)) => if *v >= 0 {
            *v as u64
        } else {
            DEFAULT_ALIGNMENT
        },
        Some(Value::I64(v)) => if *v >= 0 {
            *v as u64
        } else {
            DEFAULT_ALIGNMENT
        },
        _ => DEFAULT_ALIGNMENT,
    }
}

/// Reads the metadata entries and the tensor descriptions that follow a file's head.
fn parse_tables(
    reader: &mut Reader<'_>,
    version: Version,
    tensor_count: u64,
    metadata_count: u64,
) -> (r: Result<Content, GgufError>)
    requires
        old(reader).wf(),
        old(reader).pos == 24,
    ensures
        match r {
            Ok(c) => rd_tables(old(reader).bytes@, version, tensor_count, metadata_count) == Ok::<
                ContentModel,
                GgufError,
            >(c@),
            Err(e) => rd_tables(old(reader).bytes@, version, tensor_count, metadata_count) == Err::<
                ContentModel,
                GgufError,
            >(e),
        },
{
    let ghost b = reader.bytes@;
    let ghost whole = GGUF_MAX_METADATA_ELEMENTS as nat;
    let ghost mut entries: Seq<(Seq<char>, ValueModel)> = Seq::empty();
    let mut metadata: NameMap<Value> = NameMap::new();
    let mut element_budget: u64 = GGUF_MAX_METADATA_ELEMENTS;
    let mut i: u64 = 0;
    assert(metadata@ =~= bind_all(entries));
    while i < metadata_count
        invariant
            i <= metadata_count,
            reader.moved(*old(reader), reader.pos as int),
            b == old(reader).bytes@,
            whole == GGUF_MAX_METADATA_ELEMENTS,
            rd_entries(b, 24, whole, i as nat) == Ok::<
                (Seq<(Seq<char>, ValueModel)>, int, nat),
                GgufError,
            >((entries, reader.pos as int, element_budget as nat)),
            metadata@ == bind_all(entries),
        decreases metadata_count - i,
    {
        match read_entry(reader, &mut element_budget) {
            Ok((key, value)) => {
                proof {
                    let next = entries.push((key@, value@));
                    assert(next.drop_last() =~= entries);
                    entries = next;
                }
                metadata.insert(key, value);
            },
            Err(e) => {
                proof {
                    lemma_entries_error(b, 24, whole, i as nat + 1, metadata_count as nat);
                }
                return Err(e);
            },
        }
        i = i + 1;
    }
    let ghost first = reader.pos as int;
    let ghost mut tensors: Seq<(Seq<char>, TensorModel)> = Seq::empty();
    let mut tensor_infos: NameMap<TensorInfo> = NameMap::new();
    let mut j: u64 = 0;
    assert(tensor_infos@ =~= bind_all(tensors));
    while j < tensor_count
        invariant
            j <= tensor_count,
            reader.moved(*old(reader), reader.pos as int),
            b == old(reader).bytes@,
            rd_tensors(b, first, j as nat) == Ok::<
                (Seq<(Seq<char>, TensorModel)>, int),
                GgufError,
            >((tensors, reader.pos as int)),
            tensor_infos@ == bind_all(tensors),
            whole == GGUF_MAX_METADATA_ELEMENTS,
            rd_entries(b, 24, whole, metadata_count as nat) == Ok::<
                (Seq<(Seq<char>, ValueModel)>, int, nat),
                GgufError,
            >((entries, first, element_budget as nat)),
        decreases tensor_count - j,
    {
        match read_tensor(reader) {
            Ok(info) => {
                proof {
                    let next = tensors.push((info@.name, info@));
                    assert(next.drop_last() =~= tensors);
                    tensors = next;
                }
                tensor_infos.insert(info.name.clone(), info);
            },
            Err(e) => {
                proof {
                    lemma_tensors_error(b, first, j as nat + 1, tensor_count as nat);
                }
                return Err(e);
            },
        }
        j = j + 1;
    }
    let alignment: u64 = alignment(&metadata);
    if alignment == 0 {
        return Err(GgufError::ZeroAlignment);
    }
    proof {
        law_align_up(reader.pos as int, alignment as int);
    }
    let tensor_data_offset: u64 = align_to(reader.pos as u64, alignment)?;
    let file_size: u64 = reader.bytes.len() as u64;
    if tensor_data_offset > file_size {
        return Err(GgufError::DataOffset { offset: tensor_data_offset, file_size });
    }
    Ok(Content { version, metadata, tensor_infos, tensor_data_offset })
}

/// Reads the head of a file.
pub fn parse_content(bytes: &[u8]) -> (r: Result<Content, GgufError>)
    ensures
        match r {
            Ok(c) => rd_content(bytes@) == Ok::<ContentModel, GgufError>(c@),
            Err(e) => rd_content(bytes@) == Err::<ContentModel, GgufError>(e),
        },
{
    let mut reader = Reader { bytes, pos: 0 };
    let magic: u32 = reader.read_u32()?;
    if magic != MAGIC {
        return Err(GgufError::Magic { magic });
    }
    let version_raw: u32 = reader.read_u32()?;
    let version = match version_raw {
        2 => Version::V2,
        3 => Version::V3,
        _ => {
            return Err(GgufError::Version { version: version_raw });
        },
    };
    let tensor_count: u64 = reader.read_u64()?;
    let metadata_count: u64 = reader.read_u64()?;
    if tensor_count > GGUF_MAX_ARRAY_ELEMENTS {
        return Err(GgufError::TensorCount { count: tensor_count });
    }
    if metadata_count > GGUF_MAX_ARRAY_ELEMENTS {
        return Err(GgufError::MetadataCount { count: metadata_count });
    }
    parse_tables(&mut reader, version, tensor_count, metadata_count)
}

/// Array elements that a value holds, those of nested arrays counted too.
pub open spec fn elements(v: ValueModel) -> nat
    decreases v,
{
    match v {
        ValueModel::Array(s) => s.len() + elements_of(s),
        _ => 0,
    }
}

/// Array elements that the values hold together.
pub open spec fn elements_of(s: Seq<ValueModel>) -> nat
    decreases s,
{
    if s.len() == 0 {
        0
    } else {
        elements_of(s.drop_last()) + elements(s.last())
    }
}

/// Array elements that the values of metadata entries hold together.
pub open spec fn elements_of_entries(s: Seq<(Seq<char>, ValueModel)>) -> nat
    decreases s.len(),
{
    if s.len() == 0 {
        0
    } else {
        elements_of_entries(s.drop_last()) + elements(s.last().1)
    }
}

/// Reading a value takes exactly its array elements from the budget, and never
/// moves back or past the end of the file.
pub proof fn law_value_budget(b: Seq<u8>, pos: int, ty: ValueType, depth: nat, budget: nat)
    requires
        0 <= pos <= b.len(),
    ensures
        rd_value(b, pos, ty, depth, budget) matches Ok((v, p, left)) ==> left + elements(v)
            == budget && pos <= p <= b.len(),
    decreases 66 - depth, 0nat,
{
    if depth <= GGUF_MAX_VALUE_DEPTH && ty is Array {
        match rd_array_head(b, pos, budget) {
            Ok((element, len, p)) => {
                law_values_budget(
                    b,
                    p,
                    element,
                    depth + 1,
                    (budget - len) as nat,
                    len as nat,
                );
            },
            Err(_) => {},
        }
    }
}

/// Reading `n` values takes exactly their array elements from the budget, and gives
/// `n` values.
pub proof fn law_values_budget(
    b: Seq<u8>,
    pos: int,
    ty: ValueType,
    depth: nat,
    budget: nat,
    n: nat,
)
    requires
        0 <= pos <= b.len(),
    ensures
        rd_values(b, pos, ty, depth, budget, n) matches Ok((s, p, left)) ==> s.len() == n && left
            + elements_of(s) == budget && pos <= p <= b.len(),
    decreases 66 - depth, n,
{
    if n > 0 {
        law_values_budget(b, pos, ty, depth, budget, (n - 1) as nat);
        match rd_values(b, pos, ty, depth, budget, (n - 1) as nat) {
            Ok((s, p, left)) => {
                law_value_budget(b, p, ty, depth, left);
                match rd_value(b, p, ty, depth, left) {
                    Ok((v, _, _)) => {
                        assert(s.push(v).drop_last() =~= s);
                    },
                    Err(_) => {},
                }
            },
            Err(_) => {},
        }
    }
}

/// The arrays of a file's metadata never hold more elements together than the
/// budget they were read with: what they hold and what is left make up the budget.
pub proof fn law_entries_budget(b: Seq<u8>, pos: int, budget: nat, n: nat)
    requires
        0 <= pos <= b.len(),
    ensures
        rd_entries(b, pos, budget, n) matches Ok((s, p, left)) ==> left + elements_of_entries(s)
            == budget && pos <= p <= b.len(),
    decreases n,
{
    if n > 0 {
        law_entries_budget(b, pos, budget, (n - 1) as nat);
        match rd_entries(b, pos, budget, (n - 1) as nat) {
            Ok((s, p, left)) => {
                match rd_entry(b, p, left) {
                    Ok((entry, _, _)) => {
                        let key_end = rd_string(b, p)->Ok_0.1;
                        let (id, q) = rd_u32(b, key_end)->Ok_0;
                        law_value_budget(b, q, ValueType::of_id(id)->0, 0, left);
                        assert(s.push(entry).drop_last() =~= s);
                    },
                    Err(_) => {},
                }
            },
            Err(_) => {},
        }
    }
}

proof fn lemma_tensors_forward(b: Seq<u8>, pos: int, n: nat)
    requires
        0 <= pos <= b.len(),
    ensures
        rd_tensors(b, pos, n) matches Ok((_, p)) ==> pos <= p <= b.len(),
    decreases n,
{
    if n > 0 {
        lemma_tensors_forward(b, pos, (n - 1) as nat);
        match rd_tensors(b, pos, (n - 1) as nat) {
            Ok((_, p)) => {
                match rd_tensor(b, p) {
                    Ok(_) => {
                        let name_end = rd_string(b, p)->Ok_0.1;
                        let (count, q) = rd_u32(b, name_end)->Ok_0;
                        lemma_dims_forward(b, q, count as nat);
                    },
                    Err(_) => {},
                }
            },
            Err(_) => {},
        }
    }
}

proof fn lemma_dims_forward(b: Seq<u8>, pos: int, n: nat)
    requires
        0 <= pos <= b.len(),
    ensures
        rd_dims(b, pos, n) matches Ok((_, p)) ==> pos <= p <= b.len(),
    decreases n,
{
    if n > 0 {
        lemma_dims_forward(b, pos, (n - 1) as nat);
    }
}

/// The tensor data of a readable file starts inside the file or at its end, on a
/// multiple of the file's alignment, which is positive.
pub proof fn law_data_offset(b: Seq<u8>)
    ensures
        rd_content(b) matches Ok(c) ==> {
            let alignment = alignment_of(lookup(c.metadata, "general.alignment"@));
            &&& alignment > 0
            &&& c.tensor_data_offset <= b.len()
            &&& c.tensor_data_offset as nat % alignment as nat == 0
        },
{
    match rd_content(b) {
        Ok(c) => {
            let tensors = rd_u64(b, 8)->Ok_0.0;
            let entries = rd_u64(b, 16)->Ok_0.0;
            let budget = GGUF_MAX_METADATA_ELEMENTS as nat;
            law_entries_budget(b, 24, budget, entries as nat);
            let (_, p, _) = rd_entries(b, 24, budget, entries as nat)->Ok_0;
            lemma_tensors_forward(b, p, tensors as nat);
            let (_, q) = rd_tensors(b, p, tensors as nat)->Ok_0;
            let alignment = alignment_of(lookup(c.metadata, "general.alignment"@));
            law_align_up(q, alignment as int);
        },
        Err(_) => {},
    }
}

/// Where the bytes of tensor `name` stand in a file of `file_size` bytes.
pub open spec fn tensor_range(c: ContentModel, file_size: nat, name: Seq<char>) -> Result<
    (usize, usize),
    GgufError,
> {
    match lookup(c.tensor_infos, name) {
        None => Err(GgufError::NoTensor),
        Some(info) => match info.byte_size() {
            Err(e) => Err(e),
            Ok(size) => {
                let start = c.tensor_data_offset + info.offset;
                if start > u64::MAX {
                    Err(GgufError::FileOffsetOverflow)
                } else if start + size > usize::MAX {
                    Err(GgufError::EndOverflow)
                } else if start + size > file_size {
                    Err(
                        GgufError::PastEnd {
                            start: start as usize,
                            end: (start + size) as usize,
                            file_size: file_size as usize,
                        },
                    )
                } else {
                    Ok((start as usize, (start + size) as usize))
                }
            },
        },
    }
}

/// A file in memory and what its head says.
pub struct GgufFile<'a> {
    pub bytes: &'a [u8],
    pub content: Content,
}

impl<'a> GgufFile<'a> {
    /// Reads the head of the file that `bytes` holds.
    pub fn open(bytes: &'a [u8]) -> (r: Result<GgufFile<'a>, GgufError>)
        ensures
            match r {
                Ok(f) => f.bytes == bytes && rd_content(bytes@) == Ok::<ContentModel, GgufError>(
                    f.content@,
                ),
                Err(e) => rd_content(bytes@) == Err::<ContentModel, GgufError>(e),
            },
    {
        let content: Content = parse_content(bytes)?;
        Ok(GgufFile { bytes, content })
    }

    /// The tensor of this name and its bytes.
    pub fn tensor_data(&self, name: &str) -> (r: Result<(&TensorInfo, &'a [u8]), GgufError>)
        ensures
            match r {
                Ok((info, data)) => lookup(self.content@.tensor_infos, name@) == Some(info@) && (
                match tensor_range(self.content@, self.bytes@.len(), name@) {
                    Ok((start, end)) => data@ == self.bytes@.subrange(start as int, end as int),
                    Err(_) => false,
                }),
                Err(e) => tensor_range(self.content@, self.bytes@.len(), name@) == Err::<
                    (usize, usize),
                    GgufError,
                >(e),
            },
    {
        let info: &TensorInfo = self.content.tensor_info(name)?;
        let size: usize = info.size_in_bytes()?;
        let start: u64 = match self.content.tensor_data_offset.checked_add(info.offset) {
            Some(v) => v,
            None => {
                return Err(GgufError::FileOffsetOverflow);
            },
        };
        if start > usize::MAX as u64 {
            return Err(GgufError::EndOverflow);
        }
        let start: usize = start as usize;
        let end: usize = match start.checked_add(size) {
            Some(v) => v,
            None => {
                return Err(GgufError::EndOverflow);
            },
        };
        let file_size: usize = self.bytes.len();
        if end > file_size {
            return Err(GgufError::PastEnd { start, end, file_size });
        }
        Ok((info, vstd::slice::slice_subrange(self.bytes, start, end)))
    }
}

/// The bytes of a tensor lie in the tensor data of the file and are as many as its
/// shape and element type ask for.
pub proof fn law_tensor_range(c: ContentModel, file_size: nat, name: Seq<char>)
    requires
        file_size <= usize::MAX,
    ensures
        tensor_range(c, file_size, name) matches Ok((start, end)) ==> {
            let info = lookup(c.tensor_infos, name)->0;
            &&& lookup(c.tensor_infos, name) is Some
            &&& c.tensor_data_offset <= start <= end <= file_size
            &&& info.byte_size() == Ok::<usize, GgufError>((end - start) as usize)
        },
{
}

} // verus!
