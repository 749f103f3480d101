//! Safetensors shards: the tensors of one file, read through the `safetensors` crate.
use crate::dequant::{le16, le32, read_u16, read_u32, Element, HalfElement};
use crate::gguf::{dims_product, le64};
use safetensors::{Dtype, SafeTensorError, SafeTensors};
use vstd::prelude::*;

verus! {

/// The parsed header of a safetensors file together with the file's bytes.
#[verifier::external_type_specification]
#[verifier::external_body]
pub struct ExSafeTensors<'data>(safetensors::SafeTensors<'data>);

/// Why a safetensors file or one of its tensors cannot be read.
#[verifier::external_type_specification]
#[verifier::external_body]
pub struct ExSafeTensorError(safetensors::SafeTensorError);

/// The element types of safetensors that convert to half precision; the rest.
#[derive(Clone, Copy, Debug, PartialEq, Eq, Structural)]
pub enum ShardType {
    F16,
    BF16,
    F32,
    F64,
    Other,
}

/// What one tensor of a file is.
#[verifier::ext_equal]
pub struct ShardModel {
    pub dtype: ShardType,
    pub shape: Seq<usize>,
    pub data: Seq<u8>,
}

/// The tensors of a parsed file, by name.
pub uninterp spec fn tensors_of(st: SafeTensors<'_>) -> Map<Seq<char>, ShardModel>;

/// The tensors of the file that `bytes` holds, by name; `None` where it is no
/// safetensors file.
pub uninterp spec fn parsed(bytes: Seq<u8>) -> Option<Map<Seq<char>, ShardModel>>;

/// The header of a safetensors file: what follows the eight bytes of its length, where the
/// file is that long.
pub open spec fn header(bytes: Seq<u8>) -> Option<Seq<u8>> {
    if bytes.len() >= 8 && 8 + le64(bytes, 0) <= bytes.len() {
        Some(bytes.subrange(8, 8 + le64(bytes, 0)))
    } else {
        None
    }
}

/// Where the data of the last tensor that a header describes ends; `None` where it is no
/// valid header.
pub uninterp spec fn data_end(header: Seq<u8>) -> Option<usize>;

/// `serde_json::from_slice` into `safetensors::tensor::Metadata`, which checks the tensors
/// against each other, and `Metadata::data_len`: where the data that a header describes ends.
/// That depends on the bytes of the header alone; the form of a header is the crate's.
#[verifier::external_body]
fn read_data_end(header: &[u8]) -> (r: Option<usize>)
    ensures
        r == data_end(header@),
{
    serde_json::from_slice::<safetensors::tensor::Metadata>(header).ok().map(|m| m.data_len())
}

/// The bytes of the file that its header describes, the header and its length among them, can
/// be counted.
pub open spec fn described_size_fits(bytes: Seq<u8>) -> bool {
    header(bytes) matches Some(h) ==> (data_end(h) matches Some(end) ==> end + 8 + h.len()
        <= usize::MAX)
}

/// Whether the bytes that the header of the file describes can be counted.
fn has_countable_size(bytes: &[u8]) -> (r: bool)
    ensures
        r == described_size_fits(bytes@),
{
    if bytes.len() < 8 {
        return true;
    }
    let low: u32 = read_u32(bytes, 0);
    let high: u32 = read_u32(bytes, 4);
    let len: u64 = low as u64 + 0x1_0000_0000 * (high as u64);
    let left: usize = bytes.len() - 8;
    if len > left as u64 {
        return true;
    }
    let size: usize = 8 + len as usize;
    match read_data_end(vstd::slice::slice_subrange(bytes, 8, size)) {
        Some(end) => end <= usize::MAX - size,
        None => true,
    }
}

/// `safetensors::SafeTensors::deserialize`: parses a file. The tensors that come out
/// depend on the bytes alone; their form is the crate's. It adds the size of the header to
/// the end of the data that a valid header describes, which must not overflow.
#[verifier::external_body]
fn deserialize<'a>(bytes: &'a [u8]) -> (r: Result<SafeTensors<'a>, SafeTensorError>)
    requires
        described_size_fits(bytes@),
    ensures
        match r {
            Ok(st) => parsed(bytes@) == Some(tensors_of(st)),
            Err(_) => parsed(bytes@) is None,
        },
{
    SafeTensors::deserialize(bytes)
}

/// One tensor of a file.
#[derive(Debug)]
pub struct ShardTensor<'a> {
    pub dtype: ShardType,
    pub shape: Vec<usize>,
    pub data: &'a [u8],
}

impl<'a> View for ShardTensor<'a> {
    type V = ShardModel;

    open spec fn view(&self) -> ShardModel {
        ShardModel { dtype: self.dtype, shape: self.shape@, data: self.data@ }
    }
}

impl ShardType {
    /// Bytes of one element; 0 where the type does not convert.
    pub open spec fn width(self) -> nat {
        match self {
            ShardType::F16 | ShardType::BF16 => 2,
            ShardType::F32 => 4,
            ShardType::F64 => 8,
            ShardType::Other => 0,
        }
    }
}

/// The element count of the tensor fits in `usize`, and where the type converts the
/// data is that many elements long.
pub open spec fn sized(t: ShardModel) -> bool {
    match dims_product(t.shape) {
        Some(n) => t.dtype is Other || t.data.len() == n * t.dtype.width(),
        None => false,
    }
}

/// `safetensors::SafeTensors::tensor`: the tensor of a parsed file that has this
/// name. A parsed file holds exactly as many bytes for a tensor as its shape and
/// type take.
#[verifier::external_body]
fn tensor<'a>(st: &SafeTensors<'a>, name: &str) -> (r: Result<ShardTensor<'a>, SafeTensorError>)
    ensures
        match r {
            Ok(t) => tensors_of(*st).contains_key(name@) && tensors_of(*st)[name@] == t@ && sized(
                t@,
            ),
            Err(_) => !tensors_of(*st).contains_key(name@),
        },
{
    let view = st.tensor(name)?;
    let dtype = match view.dtype() {
        Dtype::F16 => ShardType::F16,
        Dtype::BF16 => ShardType::BF16,
        Dtype::F32 => ShardType::F32,
        Dtype::F64 => ShardType::F64,
        _ => ShardType::Other,
    };
    Ok(ShardTensor { dtype, shape: view.shape().to_vec(), data: view.data() })
}

/// Why a tensor of a shard cannot be loaded.
#[derive(Clone, Copy, Debug, PartialEq, Eq, Structural)]
pub enum ShardError {
    /// The header describes more bytes than can be counted.
    DescribedSize,
    /// The bytes are no safetensors file.
    Malformed,
    /// The file has no tensor of this name.
    NoTensor,
    /// The element type does not convert to half precision.
    Unsupported,
}

impl ShardError {
    /// The error in words.
    pub open spec fn text(self) -> Seq<char> {
        match self {
            ShardError::DescribedSize => "safetensors header describes too many bytes"@,
            ShardError::Malformed => "failed to deserialize safetensors shard"@,
            ShardError::NoTensor => "tensor not found in shard"@,
            ShardError::Unsupported => "unsupported dtype for fp16 cast"@,
        }
    }

    /// The error in words.
    pub fn message(&self) -> (r: &'static str)
        ensures
            r@ == self.text(),
    {
        match *self {
            ShardError::DescribedSize => "safetensors header describes too many bytes",
            ShardError::Malformed => "failed to deserialize safetensors shard",
            ShardError::NoTensor => "tensor not found in shard",
            ShardError::Unsupported => "unsupported dtype for fp16 cast",
        }
    }
}

/// The tensor `name` among the tensors that the parsed file holds.
pub open spec fn pick_tensor(
    file: Option<Map<Seq<char>, ShardModel>>,
    name: Seq<char>,
) -> Result<ShardModel, ShardError> {
    match file {
        None => Err(ShardError::Malformed),
        Some(m) => if m.contains_key(name) {
            Ok(m[name])
        } else {
            Err(ShardError::NoTensor)
        },
    }
}

/// The tensor `name` of the file that `bytes` holds.
pub open spec fn shard_tensor(bytes: Seq<u8>, name: Seq<char>) -> Result<ShardModel, ShardError> {
    if described_size_fits(bytes) {
        pick_tensor(parsed(bytes), name)
    } else {
        Err(ShardError::DescribedSize)
    }
}

/// Reads the tensor `name` of the file that `bytes` holds.
pub fn read_shard_tensor<'a>(bytes: &'a [u8], name: &str) -> (r: Result<
    ShardTensor<'a>,
    ShardError,
>)
    ensures
        match r {
            Ok(t) => shard_tensor(bytes@, name@) == Ok::<ShardModel, ShardError>(t@) && sized(t@),
            Err(e) => shard_tensor(bytes@, name@) == Err::<ShardModel, ShardError>(e),
        },
{
    if !has_countable_size(bytes) {
        return Err(ShardError::DescribedSize);
    }
    match deserialize(bytes) {
        Err(_) => Err(ShardError::Malformed),
        Ok(st) => match tensor(&st, name) {
            Err(_) => Err(ShardError::NoTensor),
            Ok(t) => Ok(t),
        },
    }
}

/// Whether elements of this type convert to half precision.
pub fn safetensor_dtype_supported_for_f16(dtype: ShardType) -> (r: bool)
    ensures
        r == !(dtype is Other),
{
    match dtype {
        ShardType::Other => false,
        _ => true,
    }
}

/// Element `i` of data of type `dtype`.
pub open spec fn shard_element(dtype: ShardType, data: Seq<u8>, i: int) -> Element {
    match dtype {
        ShardType::F16 => Element::Half { bits: le16(data, 2 * i) },
        ShardType::BF16 => Element::Brain { bits: le16(data, 2 * i) },
        ShardType::F32 => Element::Single { bits: le32(data, 4 * i) },
        _ => Element::Double { bits: le64(data, 8 * i) },
    }
}

/// The elements of data of type `dtype` in half precision; bytes after the last whole
/// element do not count.
pub open spec fn shard_elements(dtype: ShardType, data: Seq<u8>) -> Result<
    Seq<HalfElement>,
    ShardError,
> {
    if dtype is Other {
        Err(ShardError::Unsupported)
    } else {
        Ok(Seq::new(data.len() / dtype.width(), |i: int| shard_element(dtype, data, i).halved()))
    }
}

/// The elements of a tensor's data in half precision.
pub fn cast_to_f16(dtype: ShardType, data: &[u8]) -> (r: Result<Vec<HalfElement>, ShardError>)
    ensures
        match r {
            Ok(v) => shard_elements(dtype, data@) == Ok::<Seq<HalfElement>, ShardError>(v@),
            Err(e) => shard_elements(dtype, data@) == Err::<Seq<HalfElement>, ShardError>(e),
        },
{
    let width: usize = match dtype {
        ShardType::F16 | ShardType::BF16 => 2,
        ShardType::F32 => 4,
        ShardType::F64 => 8,
        ShardType::Other => {
            return Err(ShardError::Unsupported);
        },
    };
    let count: usize = data.len() / width;
    let mut out: Vec<HalfElement> = Vec::new();
    let mut i: usize = 0;
    while i < count
        invariant
            i <= count,
            !(dtype is Other),
            width == dtype.width(),
            count == data.len() as int / width as int,
            out@.len() == i,
            forall|k: int| 0 <= k < i ==> out@[k] == shard_element(dtype, data@, k).halved(),
        decreases count - i,
    {
        let e: Element = match dtype {
            ShardType::F16 => Element::Half { bits: read_u16(data, 2 * i) },
            ShardType::BF16 => Element::Brain { bits: read_u16(data, 2 * i) },
            ShardType::F32 => Element::Single { bits: read_u32(data, 4 * i) },
            _ => {
                let low: u32 = read_u32(data, 8 * i);
                let high: u32 = read_u32(data, 8 * i + 4);
                Element::Double { bits: low as u64 + 0x1_0000_0000 * (high as u64) }
            },
        };
        out.push(e.to_half());
        i = i + 1;
    }
    assert(out@ =~= Seq::new(
        data@.len() / dtype.width(),
        |k: int| shard_element(dtype, data@, k).halved(),
    ));
    Ok(out)
}

} // verus!
