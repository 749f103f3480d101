//! Weight matrices on the device: unquantized or in quantized blocks, whole or as a
//! stack of parts.
use crate::dequant::GgmlType;
use crate::quant_scratch::copy_dims;
use vstd::prelude::*;

verus! {

/// A tensor on the device: a handle, its shape as the device keeps it, and its
/// element count.
#[derive(Clone, Debug)]
pub struct DeviceBuffer {
    pub id: usize,
    pub shape: Vec<i32>,
    pub size: usize,
}

/// Why a weight is refused.
#[derive(Clone, Copy, Debug, PartialEq, Eq, Structural)]
#[allow(inconsistent_fields)]
pub enum WeightError {
    /// The weight, or a part of it, is not a matrix.
    Rank { rank: usize },
    /// A dimension on the device is negative.
    NegativeDim,
    ElementOverflow,
    ByteOverflow,
    /// The element count is not a whole number of blocks.
    PartialBlock { elems: usize, dtype: GgmlType },
    /// A buffer does not have the shape that the matrix asks for.
    BufferShape,
    /// The element type has no quantized form.
    Unsupported { dtype: GgmlType },
    /// Only Q8_0 weights are kept split.
    SplitType { dtype: GgmlType },
    /// A buffer does not have the size that the matrix asks for.
    BufferSize { got: usize, expected: usize },
    NoParts,
    /// The parts have different column counts.
    Columns { got: usize, expected: usize },
    RowOverflow,
    /// A row slice ends past the last row.
    SliceRange { end: usize, rows: usize },
    /// A row slice begins or ends inside a part.
    SliceCuts { part: usize },
    /// A row slice holds no part.
    SliceEmpty,
}

/// Quantized blocks on the device.
#[derive(Clone, Debug)]
pub enum QuantizedStorage {
    /// As the file holds them.
    Native { data: DeviceBuffer },
    /// Q8_0: as the file holds them, and with integers and scales apart.
    Q8_0Soa { native: DeviceBuffer, qs: DeviceBuffer, scales: DeviceBuffer },
}

#[derive(Clone, Debug)]
pub struct QuantizedWeight {
    pub storage: QuantizedStorage,
    pub shape: Vec<usize>,
}

/// One weight matrix.
#[derive(Clone, Debug)]
#[allow(non_camel_case_types)]
pub enum Weight {
    F16 { data: DeviceBuffer, shape: Vec<usize> },
    Q8_0(QuantizedWeight),
    Q4K(QuantizedWeight),
    Q5K(QuantizedWeight),
    Q6K(QuantizedWeight),
}

/// The dimensions of a buffer as lengths; `None` where one is negative.
pub open spec fn lengths(shape: Seq<i32>) -> Option<Seq<usize>> {
    if exists|i: int| 0 <= i < shape.len() && #[trigger] shape[i] < 0 {
        None
    } else {
        Some(shape.map_values(|d: i32| d as usize))
    }
}

/// The dimensions of a buffer as lengths.
pub fn tensor_shape_usize(shape: &[i32]) -> (r: Result<Vec<usize>, WeightError>)
    ensures
        match r {
            Ok(v) => lengths(shape@) == Some(v@),
            Err(e) => lengths(shape@) is None && e == WeightError::NegativeDim,
        },
{
    let mut out: Vec<usize> = Vec::new();
    let mut i: usize = 0;
    while i < shape.len()
        invariant
            i <= shape.len(),
            out@.len() == i,
            forall|k: int| 0 <= k < i ==> #[trigger] shape@[k] >= 0,
            forall|k: int| 0 <= k < i ==> #[trigger] out@[k] == shape@[k] as usize,
        decreases shape.len() - i,
    {
        if shape[i] < 0 {
            return Err(WeightError::NegativeDim);
        }
        out.push(shape[i] as usize);
        i = i + 1;
    }
    assert(out@ =~= shape@.map_values(|d: i32| d as usize));
    Ok(out)
}

/// Bytes of `elems` elements in blocks of type `dtype`.
pub open spec fn block_bytes_of(dtype: GgmlType, elems: nat) -> nat {
    elems / dtype.block_elems() * dtype.block_bytes()
}

/// The elements of a matrix.
pub open spec fn matrix_elems(shape: Seq<usize>) -> int {
    shape[0] * shape[1]
}

/// Whether blocks of type `dtype` in the buffer `data` make a matrix of this shape,
/// and the first reason against it.
pub open spec fn quantized_check(dtype: GgmlType, data: Seq<i32>, shape: Seq<usize>) -> Result<
    (),
    WeightError,
> {
    if shape.len() != 2 {
        Err(WeightError::Rank { rank: shape.len() as usize })
    } else if matrix_elems(shape) > usize::MAX {
        Err(WeightError::ElementOverflow)
    } else if matrix_elems(shape) % dtype.block_elems() as int != 0 {
        Err(WeightError::PartialBlock { elems: matrix_elems(shape) as usize, dtype })
    } else if block_bytes_of(dtype, matrix_elems(shape) as nat) > usize::MAX {
        Err(WeightError::ByteOverflow)
    } else if data != seq![block_bytes_of(dtype, matrix_elems(shape) as nat) as usize as i32] {
        Err(WeightError::BufferShape)
    } else if !(dtype is Q8_0 || dtype is Q4K || dtype is Q5K || dtype is Q6K) {
        Err(WeightError::Unsupported { dtype })
    } else {
        Ok(())
    }
}

/// Whether buffers of these shapes hold a split Q8_0 matrix, and the first reason
/// against it.
pub open spec fn q8_0_soa_check(
    native: Seq<i32>,
    qs: Seq<i32>,
    scales: Seq<i32>,
    shape: Seq<usize>,
) -> Result<(), WeightError> {
    if shape.len() != 2 {
        Err(WeightError::Rank { rank: shape.len() as usize })
    } else if shape[1] % 32 != 0 {
        Err(WeightError::PartialBlock { elems: shape[1], dtype: GgmlType::Q8_0 })
    } else if shape[0] * (shape[1] / 32) * 34 > usize::MAX {
        Err(WeightError::ByteOverflow)
    } else if native != seq![(shape[0] * (shape[1] / 32) * 34) as usize as i32] {
        Err(WeightError::BufferShape)
    } else if qs != seq![shape[0] as i32, shape[1] as i32] {
        Err(WeightError::BufferShape)
    } else if scales != seq![shape[0] as i32, (shape[1] / 32) as usize as i32] {
        Err(WeightError::BufferShape)
    } else {
        Ok(())
    }
}

/// Whether the shape of a buffer is the one dimension `a`.
fn is_shape1(shape: &Vec<i32>, a: usize) -> (r: bool)
    ensures
        r == (shape@ == seq![a as i32]),
{
    let r: bool = shape.len() == 1 && shape[0] == a as i32;
    assert(r ==> shape@ =~= seq![a as i32]);
    assert(shape@ == seq![a as i32] ==> shape@.len() == 1 && shape@[0] == a as i32);
    r
}

/// Whether the shape of a buffer is the two dimensions `a` and `b`.
fn is_shape2(shape: &Vec<i32>, a: usize, b: usize) -> (r: bool)
    ensures
        r == (shape@ == seq![a as i32, b as i32]),
{
    let r: bool = shape.len() == 2 && shape[0] == a as i32 && shape[1] == b as i32;
    assert(r ==> shape@ =~= seq![a as i32, b as i32]);
    assert(shape@ == seq![a as i32, b as i32] ==> shape@.len() == 2 && shape@[0] == a as i32
        && shape@[1] == b as i32);
    r
}

impl Weight {
    /// The element type.
    pub open spec fn ty(self) -> GgmlType {
        match self {
            Weight::F16 { .. } => GgmlType::F16,
            Weight::Q8_0(_) => GgmlType::Q8_0,
            Weight::Q4K(_) => GgmlType::Q4K,
            Weight::Q5K(_) => GgmlType::Q5K,
            Weight::Q6K(_) => GgmlType::Q6K,
        }
    }

    /// The shape.
    pub open spec fn dims(self) -> Seq<usize> {
        match self {
            Weight::F16 { shape, .. } => shape@,
            Weight::Q8_0(q) | Weight::Q4K(q) | Weight::Q5K(q) | Weight::Q6K(q) => q.shape@,
        }
    }

    /// Where the weight is quantized, it is a matrix whose elements can be counted.
    pub open spec fn countable(self) -> bool {
        self is F16 || (self.dims().len() >= 2 && matrix_elems(self.dims()) <= usize::MAX)
    }

    /// Whether the elements of the weight can be counted, where it is quantized.
    pub fn is_countable(&self) -> (r: bool)
        ensures
            r == self.countable(),
    {
        let shape: &[usize] = self.shape();
        !self.is_quantized() || (shape.len() >= 2 && shape[0].checked_mul(shape[1]).is_some())
    }

    /// An unquantized weight, of the shape of its buffer.
    pub fn half(data: DeviceBuffer) -> (r: Result<Self, WeightError>)
        ensures
            r matches Ok(w) ==> w.countable(),
            match r {
                Ok(w) => w is F16 && lengths(data.shape@) == Some(w.dims()) && w->F16_data == data,
                Err(e) => lengths(data.shape@) is None && e == WeightError::NegativeDim,
            },
    {
        let shape: Vec<usize> = tensor_shape_usize(data.shape.as_slice())?;
        Ok(Weight::F16 { data, shape })
    }

    /// A quantized weight in the blocks of the file.
    pub fn quantized(dtype: GgmlType, data: DeviceBuffer, shape: Vec<usize>) -> (r: Result<
        Self,
        WeightError,
    >)
        ensures
            r matches Ok(w) ==> w.countable(),
            match r {
                Ok(w) => quantized_check(dtype, data.shape@, shape@) is Ok && w.ty() == dtype
                    && w.quant() == Some(
                    (QuantizedWeight { storage: QuantizedStorage::Native { data }, shape }),
                ),
                Err(e) => quantized_check(dtype, data.shape@, shape@) == Err::<(), WeightError>(e),
            },
    {
        if shape.len() != 2 {
            return Err(WeightError::Rank { rank: shape.len() });
        }
        let elems: usize = match shape[0].checked_mul(shape[1]) {
            Some(n) => n,
            None => {
                return Err(WeightError::ElementOverflow);
            },
        };
        let block: usize = dtype.block_size();
        if elems % block != 0 {
            return Err(WeightError::PartialBlock { elems, dtype });
        }
        let blocks: usize = elems / block;
        let expected: usize = match blocks.checked_mul(dtype.type_size()) {
            Some(n) => n,
            None => {
                return Err(WeightError::ByteOverflow);
            },
        };
        if !is_shape1(&data.shape, expected) {
            return Err(WeightError::BufferShape);
        }
        let q = QuantizedWeight { storage: QuantizedStorage::Native { data }, shape };
        match dtype {
            GgmlType::Q8_0 => Ok(Weight::Q8_0(q)),
            GgmlType::Q4K => Ok(Weight::Q4K(q)),
            GgmlType::Q5K => Ok(Weight::Q5K(q)),
            GgmlType::Q6K => Ok(Weight::Q6K(q)),
            _ => Err(WeightError::Unsupported { dtype }),
        }
    }

    /// A Q8_0 weight, both in the blocks of the file and split.
    pub fn q8_0_soa(
        native: DeviceBuffer,
        qs: DeviceBuffer,
        scales: DeviceBuffer,
        shape: Vec<usize>,
    ) -> (r: Result<Self, WeightError>)
        ensures
            r matches Ok(w) ==> w.countable(),
            match r {
                Ok(w) => q8_0_soa_check(native.shape@, qs.shape@, scales.shape@, shape@) is Ok && w
                    == Weight::Q8_0(
                    QuantizedWeight {
                        storage: QuantizedStorage::Q8_0Soa { native, qs, scales },
                        shape,
                    },
                ),
                Err(e) => q8_0_soa_check(native.shape@, qs.shape@, scales.shape@, shape@) == Err::<
                    (),
                    WeightError,
                >(e),
            },
    {
        if shape.len() != 2 {
            return Err(WeightError::Rank { rank: shape.len() });
        }
        let rows: usize = shape[0];
        let k: usize = shape[1];
        if k % 32 != 0 {
            return Err(WeightError::PartialBlock { elems: k, dtype: GgmlType::Q8_0 });
        }
        let expected: usize = match rows.checked_mul(k / 32) {
            Some(blocks) => match blocks.checked_mul(34) {
                Some(bytes) => bytes,
                None => {
                    return Err(WeightError::ByteOverflow);
                },
            },
            None => {
                return Err(WeightError::ByteOverflow);
            },
        };
        assert(rows * k == 32 * (rows * (k / 32))) by (nonlinear_arith)
            requires
                k % 32 == 0,
        ;
        if !is_shape1(&native.shape, expected) {
            return Err(WeightError::BufferShape);
        }
        if !is_shape2(&qs.shape, rows, k) {
            return Err(WeightError::BufferShape);
        }
        if !is_shape2(&scales.shape, rows, k / 32) {
            return Err(WeightError::BufferShape);
        }
        Ok(
            Weight::Q8_0(
                QuantizedWeight {
                    storage: QuantizedStorage::Q8_0Soa { native, qs, scales },
                    shape,
                },
            ),
        )
    }

    /// The element type.
    pub fn dtype(&self) -> (r: GgmlType)
        ensures
            r == self.ty(),
    {
        match self {
            Weight::F16 { .. } => GgmlType::F16,
            Weight::Q8_0(_) => GgmlType::Q8_0,
            Weight::Q4K(_) => GgmlType::Q4K,
            Weight::Q5K(_) => GgmlType::Q5K,
            Weight::Q6K(_) => GgmlType::Q6K,
        }
    }

    /// The shape.
    pub fn shape(&self) -> (r: &[usize])
        ensures
            r@ == self.dims(),
    {
        match self {
            Weight::F16 { shape, .. } => shape.as_slice(),
            Weight::Q8_0(q) => q.shape.as_slice(),
            Weight::Q4K(q) => q.shape.as_slice(),
            Weight::Q5K(q) => q.shape.as_slice(),
            Weight::Q6K(q) => q.shape.as_slice(),
        }
    }

    /// The first dimension.
    pub fn rows(&self) -> (r: usize)
        requires
            self.dims().len() >= 1,
        ensures
            r == self.dims()[0],
    {
        self.shape()[0]
    }

    /// The second dimension.
    pub fn cols(&self) -> (r: usize)
        requires
            self.dims().len() >= 2,
        ensures
            r == self.dims()[1],
    {
        self.shape()[1]
    }

    /// Rows times columns.
    pub fn elem_count(&self) -> (r: usize)
        requires
            self.dims().len() >= 2,
            matrix_elems(self.dims()) <= usize::MAX,
        ensures
            r == matrix_elems(self.dims()),
    {
        self.rows() * self.cols()
    }

    /// Whether the weight is in quantized blocks.
    pub fn is_quantized(&self) -> (r: bool)
        ensures
            r == !(self is F16),
    {
        match self {
            Weight::F16 { .. } => false,
            _ => true,
        }
    }

    /// The buffer of an unquantized weight.
    pub fn as_f16(&self) -> (r: Option<&DeviceBuffer>)
        ensures
            match r {
                Some(d) => *self is F16 && *d == self->F16_data,
                None => !(*self is F16),
            },
    {
        match self {
            Weight::F16 { data, .. } => Some(data),
            _ => None,
        }
    }

    /// The blocks of a quantized weight.
    pub open spec fn quant(self) -> Option<QuantizedWeight> {
        match self {
            Weight::F16 { .. } => None,
            Weight::Q8_0(q) | Weight::Q4K(q) | Weight::Q5K(q) | Weight::Q6K(q) => Some(q),
        }
    }

    /// The element type and the blocks of a quantized weight.
    pub fn as_quantized(&self) -> (r: Option<(GgmlType, &QuantizedWeight)>)
        ensures
            match r {
                Some((t, q)) => t == self.ty() && self.quant() == Some(*q),
                None => self.quant() is None,
            },
    {
        match self {
            Weight::Q8_0(q) => Some((GgmlType::Q8_0, q)),
            Weight::Q4K(q) => Some((GgmlType::Q4K, q)),
            Weight::Q5K(q) => Some((GgmlType::Q5K, q)),
            Weight::Q6K(q) => Some((GgmlType::Q6K, q)),
            Weight::F16 { .. } => None,
        }
    }
}

impl QuantizedWeight {
    /// The blocks as the file holds them.
    pub fn native_data(&self) -> (r: Option<&DeviceBuffer>)
        ensures
            r matches Some(d) && *d == (match self.storage {
                QuantizedStorage::Native { data } => data,
                QuantizedStorage::Q8_0Soa { native, .. } => native,
            }),
    {
        match &self.storage {
            QuantizedStorage::Native { data } => Some(data),
            QuantizedStorage::Q8_0Soa { native, .. } => Some(native),
        }
    }

    /// The integers and the scales of split blocks.
    pub fn q8_0_soa(&self) -> (r: Option<(&DeviceBuffer, &DeviceBuffer)>)
        ensures
            match r {
                Some((a, b)) => self.storage matches QuantizedStorage::Q8_0Soa { qs, scales, .. }
                    && *a == qs && *b == scales,
                None => self.storage is Native,
            },
    {
        match &self.storage {
            QuantizedStorage::Q8_0Soa { qs, scales, .. } => Some((qs, scales)),
            QuantizedStorage::Native { .. } => None,
        }
    }

    /// What `resident_bytes` gives.
    pub open spec fn resident(self, dtype: GgmlType) -> Result<usize, WeightError> {
        let elems = matrix_elems(self.shape@);
        let expected = block_bytes_of(dtype, elems as nat) as usize;
        if elems > usize::MAX {
            Err(WeightError::ElementOverflow)
        } else {
            match self.storage {
                QuantizedStorage::Native { data } => if data.size == expected {
                    Ok(data.size)
                } else {
                    Err(WeightError::BufferSize { got: data.size, expected })
                },
                QuantizedStorage::Q8_0Soa { native, qs, scales } => if !(dtype is Q8_0) {
                    Err(WeightError::SplitType { dtype })
                } else if native.size != expected {
                    Err(WeightError::BufferSize { got: native.size, expected })
                } else if qs.size + 2 * scales.size != expected {
                    Err(
                        WeightError::BufferSize {
                            got: (qs.size + 2 * scales.size) as usize,
                            expected,
                        },
                    )
                } else {
                    Ok((2 * expected) as usize)
                },
            }
        }
    }

    /// The bytes that `resident_bytes` adds up can be counted.
    pub open spec fn resident_fits(self, dtype: GgmlType) -> bool {
        let elems = matrix_elems(self.shape@);
        let expected = block_bytes_of(dtype, elems as nat);
        elems <= usize::MAX ==> match self.storage {
            QuantizedStorage::Native { .. } => expected <= usize::MAX,
            QuantizedStorage::Q8_0Soa { native, qs, scales } => dtype is Q8_0 ==> {
                &&& expected <= usize::MAX
                &&& native.size == expected ==> qs.size + 2 * scales.size <= usize::MAX
                &&& native.size == expected && qs.size + 2 * scales.size == expected ==> 2
                    * expected <= usize::MAX
            },
        }
    }

    /// Bytes that the weight takes on the device. Split blocks count twice: the file's
    /// form stays next to the split one.
    pub fn resident_bytes(&self, dtype: GgmlType) -> (r: Result<usize, WeightError>)
        requires
            self.shape@.len() >= 2,
            self.resident_fits(dtype),
        ensures
            r == self.resident(dtype),
    {
        let elems: usize = match self.shape[0].checked_mul(self.shape[1]) {
            Some(n) => n,
            None => {
                return Err(WeightError::ElementOverflow);
            },
        };
        let blocks: usize = elems / dtype.block_size();
        let size: usize = dtype.type_size();
        assert(blocks * size == block_bytes_of(dtype, elems as nat));
        match &self.storage {
            QuantizedStorage::Native { data } => {
                let expected: usize = blocks * size;
                if data.size != expected {
                    return Err(WeightError::BufferSize { got: data.size, expected });
                }
                Ok(data.size)
            },
            QuantizedStorage::Q8_0Soa { native, qs, scales } => {
                match dtype {
                    GgmlType::Q8_0 => {},
                    _ => {
                        return Err(WeightError::SplitType { dtype });
                    },
                }
                let expected: usize = blocks * size;
                if native.size != expected {
                    return Err(WeightError::BufferSize { got: native.size, expected });
                }
                let soa: usize = qs.size + scales.size * 2;
                if soa != expected {
                    return Err(WeightError::BufferSize { got: soa, expected });
                }
                Ok(native.size + soa)
            },
        }
    }
}

/// A weight matrix that may be a stack of parts with the same columns.
#[derive(Clone, Debug)]
pub struct MatrixWeight {
    parts: Vec<Weight>,
    shape: Vec<usize>,
}

/// The rows of the first `k` parts together.
pub open spec fn rows_before(parts: Seq<Weight>, k: int) -> int
    decreases k,
{
    if k <= 0 {
        0
    } else {
        rows_before(parts, k - 1) + parts[k - 1].dims()[0]
    }
}

/// More parts never have fewer rows.
proof fn lemma_rows_monotonic(parts: Seq<Weight>, a: int, b: int)
    requires
        0 <= a <= b,
    ensures
        rows_before(parts, a) <= rows_before(parts, b),
    decreases b - a,
{
    if a < b {
        lemma_rows_monotonic(parts, a, b - 1);
    }
}

/// Whether these weights stack: the first reason against it, over the first `k`.
pub open spec fn stack_check(parts: Seq<Weight>, k: int) -> Result<(), WeightError>
    decreases k,
{
    if parts.len() == 0 {
        Err(WeightError::NoParts)
    } else if k <= 0 {
        Ok(())
    } else {
        match stack_check(parts, k - 1) {
            Err(e) => Err(e),
            Ok(_) => if parts[k - 1].dims().len() != 2 {
                Err(WeightError::Rank { rank: parts[k - 1].dims().len() as usize })
            } else if parts[k - 1].dims()[1] != parts[0].dims()[1] {
                Err(
                    WeightError::Columns {
                        got: parts[k - 1].dims()[1],
                        expected: parts[0].dims()[1],
                    },
                )
            } else if rows_before(parts, k) > usize::MAX {
                Err(WeightError::RowOverflow)
            } else {
                Ok(())
            },
        }
    }
}

proof fn lemma_stack_error(parts: Seq<Weight>, a: int, b: int)
    requires
        0 <= a <= b,
        stack_check(parts, a) is Err,
    ensures
        stack_check(parts, b) == stack_check(parts, a),
    decreases b,
{
    if a < b {
        lemma_stack_error(parts, a, b - 1);
    }
}

/// The parts of a row slice over the first `k` parts, each with where it begins in the
/// slice; the first part that the slice cuts through, where there is one.
pub open spec fn slice_parts(parts: Seq<Weight>, k: int, start: int, end: int) -> Result<
    Seq<(usize, int)>,
    WeightError,
>
    decreases k,
{
    if k <= 0 {
        Ok(Seq::empty())
    } else {
        match slice_parts(parts, k - 1, start, end) {
            Err(e) => Err(e),
            Ok(s) => {
                let first = rows_before(parts, k - 1);
                let last = rows_before(parts, k);
                if first >= last || first >= end || last <= start || start >= end {
                    Ok(s)
                } else if start <= first && last <= end {
                    Ok(s.push(((first - start) as usize, k - 1)))
                } else {
                    Err(WeightError::SliceCuts { part: (k - 1) as usize })
                }
            },
        }
    }
}

proof fn lemma_slice_error(parts: Seq<Weight>, a: int, b: int, start: int, end: int)
    requires
        0 <= a <= b,
        slice_parts(parts, a, start, end) is Err,
    ensures
        slice_parts(parts, b, start, end) == slice_parts(parts, a, start, end),
    decreases b,
{
    if a < b {
        lemma_slice_error(parts, a, b - 1, start, end);
    }
}

/// `x` moved into the range from `low` to `high`.
pub open spec fn clamp_to(x: int, low: int, high: int) -> int {
    if x < low {
        low
    } else if x > high {
        high
    } else {
        x
    }
}

/// The parts of a row slice cover it without gap or overlap: the first begins where
/// the slice does, each begins where the one before ends, and the last of them ends
/// where the slice or the parts end.
pub proof fn law_slice_covers(parts: Seq<Weight>, k: int, start: int, end: int)
    requires
        0 <= start <= end <= usize::MAX,
        k >= 0,
    ensures
        slice_parts(parts, k, start, end) matches Ok(s) ==> {
            &&& s.len() == 0 ==> clamp_to(rows_before(parts, k), start, end) == start
            &&& s.len() > 0 ==> s[0].0 == 0 && s.last().0 + parts[s.last().1].dims()[0]
                == clamp_to(rows_before(parts, k), start, end) - start
            &&& forall|j: int|
                0 <= j < s.len() - 1 ==> (#[trigger] s[j + 1]).0 == s[j].0
                    + parts[s[j].1].dims()[0]
            &&& forall|j: int| 0 <= j < s.len() ==> 0 <= (#[trigger] s[j]).1 < k
        },
    decreases k,
{
    if k > 0 {
        law_slice_covers(parts, k - 1, start, end);
        match slice_parts(parts, k - 1, start, end) {
            Ok(s) => {
                match slice_parts(parts, k, start, end) {
                    Ok(t) => {
                        if t.len() > s.len() {
                            assert forall|j: int| 0 <= j < t.len() - 1 implies (#[trigger] t[j
                                + 1]).0 == t[j].0 + parts[t[j].1].dims()[0] by {
                                if j < s.len() - 1 {
                                    assert(t[j + 1] == s[j + 1] && t[j] == s[j]);
                                }
                            }
                        }
                    },
                    Err(_) => {},
                }
            },
            Err(_) => {},
        }
    }
}

impl MatrixWeight {
    /// The parts, from the top down.
    pub closed spec fn stack(&self) -> Seq<Weight> {
        self.parts@
    }

    /// The shape of the whole.
    pub closed spec fn dims(&self) -> Seq<usize> {
        self.shape@
    }

    /// One part has the shape of the whole; several are matrices with the columns of the
    /// whole whose rows add up to its rows.
    pub open spec fn wf(&self) -> bool {
        &&& self.stack().len() >= 1
        &&& self.stack().len() == 1 && self.dims() == self.stack()[0].dims() || (self.dims().len()
            == 2 && self.dims()[0] == rows_before(self.stack(), self.stack().len() as int)
            && forall|i: int|
            0 <= i < self.stack().len() ==> (#[trigger] self.stack()[i]).dims().len() == 2
                && self.stack()[i].dims()[1] == self.dims()[1])
    }

    /// A matrix of one part.
    pub fn single(weight: Weight) -> (r: Self)
        ensures
            r.stack() == seq![weight],
            r.dims() == weight.dims(),
            r.wf(),
    {
        let shape: Vec<usize> = copy_dims(weight.shape());
        let mut parts: Vec<Weight> = Vec::new();
        parts.push(weight);
        assert(parts@ =~= seq![weight]);
        MatrixWeight { parts, shape }
    }

    /// A stack of parts with the same columns.
    pub fn row_concat(parts: Vec<Weight>) -> (r: Result<Self, WeightError>)
        requires
            parts@.len() > 0 ==> parts@[0].dims().len() >= 2,
        ensures
            match r {
                Ok(m) => stack_check(parts@, parts@.len() as int) is Ok && m.stack() == parts@
                    && m.dims() == seq![
                    rows_before(parts@, parts@.len() as int) as usize,
                    parts@[0].dims()[1],
                ] && m.wf(),
                Err(e) => stack_check(parts@, parts@.len() as int) == Err::<(), WeightError>(e),
            },
    {
        if parts.len() == 0 {
            return Err(WeightError::NoParts);
        }
        let cols: usize = parts[0].cols();
        let mut rows: usize = 0;
        let mut i: usize = 0;
        while i < parts.len()
            invariant
                i <= parts@.len(),
                parts@.len() > 0,
                parts@[0].dims().len() >= 2,
                cols == parts@[0].dims()[1],
                rows == rows_before(parts@, i as int),
                stack_check(parts@, i as int) is Ok,
                forall|k: int|
                    0 <= k < i ==> (#[trigger] parts@[k]).dims().len() == 2 && parts@[k].dims()[1]
                        == cols,
            decreases parts@.len() - i,
        {
            let part: &Weight = &parts[i];
            let rank: usize = part.shape().len();
            if rank != 2 {
                proof {
                    lemma_stack_error(parts@, i + 1, parts@.len() as int);
                }
                return Err(WeightError::Rank { rank });
            }
            if part.cols() != cols {
                proof {
                    lemma_stack_error(parts@, i + 1, parts@.len() as int);
                }
                return Err(WeightError::Columns { got: part.cols(), expected: cols });
            }
            match rows.checked_add(part.rows()) {
                Some(n) => {
                    rows = n;
                },
                None => {
                    proof {
                        lemma_stack_error(parts@, i + 1, parts@.len() as int);
                    }
                    return Err(WeightError::RowOverflow);
                },
            }
            i = i + 1;
        }
        let mut shape: Vec<usize> = Vec::new();
        shape.push(rows);
        shape.push(cols);
        assert(shape@ =~= seq![rows, cols]);
        Ok(MatrixWeight { parts, shape })
    }

    /// The shape.
    pub fn shape(&self) -> (r: &[usize])
        ensures
            r@ == self.dims(),
    {
        self.shape.as_slice()
    }

    /// The first dimension.
    pub fn rows(&self) -> (r: usize)
        requires
            self.dims().len() >= 1,
        ensures
            r == self.dims()[0],
    {
        self.shape[0]
    }

    /// The second dimension.
    pub fn cols(&self) -> (r: usize)
        requires
            self.dims().len() >= 2,
        ensures
            r == self.dims()[1],
    {
        self.shape[1]
    }

    /// The parts, from the top down.
    pub fn parts(&self) -> (r: &[Weight])
        ensures
            r@ == self.stack(),
    {
        self.parts.as_slice()
    }

    /// The buffer of a matrix that is one unquantized part.
    pub fn single_f16(&self) -> (r: Option<&DeviceBuffer>)
        ensures
            match r {
                Some(d) => self.stack().len() == 1 && self.stack()[0] is F16 && *d
                    == self.stack()[0]->F16_data,
                None => self.stack().len() != 1 || !(self.stack()[0] is F16),
            },
    {
        if self.parts.len() == 1 {
            self.parts[0].as_f16()
        } else {
            None
        }
    }

    /// Whether the matrix is one unquantized part.
    pub fn is_f16_single(&self) -> (r: bool)
        ensures
            r == (self.stack().len() == 1 && self.stack()[0] is F16),
    {
        self.single_f16().is_some()
    }

    /// Whether some part is quantized.
    pub fn has_quantized(&self) -> (r: bool)
        ensures
            r == exists|i: int|
                0 <= i < self.stack().len() && !(#[trigger] self.stack()[i] is F16),
    {
        let mut i: usize = 0;
        while i < self.parts.len()
            invariant
                i <= self.parts@.len(),
                self.stack() == self.parts@,
                forall|k: int| 0 <= k < i ==> self.stack()[k] is F16,
            decreases self.parts@.len() - i,
        {
            if self.parts[i].is_quantized() {
                assert(!(self.stack()[i as int] is F16));
                return true;
            }
            i = i + 1;
        }
        false
    }

    /// The most elements of a quantized part.
    pub fn max_quantized_elems(&self) -> (r: Option<usize>)
        requires
            forall|i: int|
                0 <= i < self.stack().len() ==> (#[trigger] self.stack()[i]).countable(),
        ensures
            match r {
                Some(n) => (exists|i: int|
                    0 <= i < self.stack().len() && !((#[trigger] self.stack()[i]) is F16)
                        && matrix_elems(self.stack()[i].dims()) == n) && forall|i: int|
                    0 <= i < self.stack().len() && !((#[trigger] self.stack()[i]) is F16)
                        ==> matrix_elems(self.stack()[i].dims()) <= n,
                None => forall|i: int|
                    0 <= i < self.stack().len() ==> (#[trigger] self.stack()[i]) is F16,
            },
    {
        let mut best: Option<usize> = None;
        let mut i: usize = 0;
        while i < self.parts.len()
            invariant
                i <= self.parts@.len(),
                self.stack() == self.parts@,
                forall|k: int|
                    0 <= k < self.stack().len() ==> (#[trigger] self.stack()[k]).countable(),
                match best {
                    Some(n) => (exists|k: int|
                        0 <= k < i && !((#[trigger] self.stack()[k]) is F16) && matrix_elems(
                            self.stack()[k].dims(),
                        ) == n) && forall|k: int|
                        0 <= k < i && !((#[trigger] self.stack()[k]) is F16) ==> matrix_elems(
                            self.stack()[k].dims(),
                        ) <= n,
                    None => forall|k: int|
                        0 <= k < i ==> (#[trigger] self.stack()[k]) is F16,
                },
            decreases self.parts@.len() - i,
        {
            let part: &Weight = &self.parts[i];
            assert(self.stack()[i as int] == *part);
            if part.is_quantized() {
                let n: usize = part.elem_count();
                match best {
                    Some(m) => {
                        if n > m {
                            best = Some(n);
                        }
                    },
                    None => {
                        best = Some(n);
                    },
                }
            }
            i = i + 1;
        }
        best
    }

    /// What `row_parts_for_slice` gives: parts by their place in the stack.
    pub open spec fn slice(&self, row_offset: int, out_rows: int) -> Result<
        Seq<(usize, int)>,
        WeightError,
    > {
        let end = row_offset + out_rows;
        if end > self.dims()[0] {
            Err(WeightError::SliceRange { end: end as usize, rows: self.dims()[0] })
        } else {
            match slice_parts(self.stack(), self.stack().len() as int, row_offset, end) {
                Err(e) => Err(e),
                Ok(s) => if s.len() == 0 {
                    Err(WeightError::SliceEmpty)
                } else {
                    Ok(s)
                },
            }
        }
    }

    /// The parts that make up `out_rows` rows from `row_offset` on, each with where it
    /// begins in the slice. A slice has to begin and end where parts do.
    pub fn row_parts_for_slice(&self, row_offset: usize, out_rows: usize) -> (r: Result<
        Vec<(usize, &Weight)>,
        WeightError,
    >)
        requires
            self.wf(),
            self.dims().len() >= 1,
            row_offset + out_rows <= usize::MAX,
        ensures
            match r {
                Ok(v) => self.slice(row_offset as int, out_rows as int) matches Ok(s) && v@.len()
                    == s.len() && forall|j: int|
                    0 <= j < s.len() ==> (#[trigger] v@[j]).0 == s[j].0 && *v@[j].1
                        == self.stack()[s[j].1],
                Err(e) => self.slice(row_offset as int, out_rows as int) == Err::<
                    Seq<(usize, int)>,
                    WeightError,
                >(e),
            },
    {
        let start: usize = row_offset;
        let end: usize = row_offset + out_rows;
        if end > self.shape[0] {
            return Err(WeightError::SliceRange { end, rows: self.shape[0] });
        }
        let ghost all = self.stack();
        let ghost count = all.len() as int;
        let ghost mut picked: Seq<(usize, int)> = Seq::empty();
        let mut result: Vec<(usize, &Weight)> = Vec::new();
        let mut cursor: usize = 0;
        let mut i: usize = 0;
        proof {
            assert(rows_before(all, 1) == rows_before(all, 0) + all[0].dims()[0]);
            assert(rows_before(all, count) == self.dims()[0]);
        }
        while i < self.parts.len()
            invariant
                i <= self.parts@.len(),
                self.wf(),
                self.dims().len() >= 1,
                all == self.stack(),
                all == self.parts@,
                count == all.len(),
                self.shape@ == self.dims(),
                start == row_offset,
                end == row_offset + out_rows,
                end <= self.dims()[0],
                cursor == rows_before(all, i as int),
                rows_before(all, count) == self.dims()[0],
                slice_parts(all, i as int, start as int, end as int) == Ok::<
                    Seq<(usize, int)>,
                    WeightError,
                >(picked),
                result@.len() == picked.len(),
                forall|j: int|
                    0 <= j < picked.len() ==> (#[trigger] result@[j]).0 == picked[j].0
                        && *result@[j].1 == all[picked[j].1],
            decreases self.parts@.len() - i,
        {
            let part: &Weight = &self.parts[i];
            proof {
                lemma_rows_monotonic(all, i + 1, count);
            }
            assert(all[i as int].dims().len() >= 1);
            let part_start: usize = cursor;
            let part_end: usize = cursor + part.rows();
            let overlap_start: usize = if start > part_start {
                start
            } else {
                part_start
            };
            let overlap_end: usize = if end < part_end {
                end
            } else {
                part_end
            };
            if overlap_start < overlap_end {
                if overlap_start != part_start || overlap_end != part_end {
                    proof {
                        lemma_slice_error(all, i + 1, count, start as int, end as int);
                    }
                    return Err(WeightError::SliceCuts { part: i });
                }
                result.push((overlap_start - start, part));
                proof {
                    picked = picked.push(((overlap_start - start) as usize, i as int));
                }
            }
            cursor = part_end;
            i = i + 1;
        }
        if result.len() == 0 {
            return Err(WeightError::SliceEmpty);
        }
        Ok(result)
    }
}

/// One copy into a merged buffer.
#[derive(Clone, Copy, Debug, PartialEq, Eq, Structural)]
pub struct RowCopy {
    /// The buffer that is copied.
    pub source: usize,
    /// Where it goes, in bytes.
    pub offset: usize,
    /// How much it is, in bytes.
    pub bytes: usize,
}

/// Matrices put one below the other.
#[derive(Debug)]
pub enum RowConcat {
    /// Unquantized ones are copied into one buffer of this shape.
    Merge { rows: usize, cols: usize, copies: Vec<RowCopy> },
    /// Others stay as they are, as parts of one matrix.
    Parts { weight: MatrixWeight },
}

/// All parts of the matrices, from the top down.
pub open spec fn all_parts(ms: Seq<MatrixWeight>) -> Seq<Weight>
    decreases ms.len(),
{
    if ms.len() == 0 {
        Seq::empty()
    } else {
        all_parts(ms.drop_last()) + ms.last().stack()
    }
}

/// The rows of the first `k` matrices together.
pub open spec fn matrix_rows_before(ms: Seq<MatrixWeight>, k: int) -> int
    decreases k,
{
    if k <= 0 {
        0
    } else {
        matrix_rows_before(ms, k - 1) + ms[k - 1].dims()[0]
    }
}

/// A matrix is one unquantized part.
pub open spec fn is_single_half(m: MatrixWeight) -> bool {
    m.stack().len() == 1 && m.stack()[0] is F16
}

/// Whether matrices can stand one below the other: the first reason against it.
pub open spec fn concat_check(ms: Seq<MatrixWeight>) -> Result<(), WeightError> {
    if ms.len() == 0 {
        Err(WeightError::NoParts)
    } else if exists|i: int| column_mismatch(ms, i) {
        let i = choose|i: int| column_mismatch(ms, i) && forall|k: int| k < i ==> !column_mismatch(ms, k);
        Err(WeightError::Columns { got: ms[i].dims()[1], expected: ms[0].dims()[1] })
    } else if forall|i: int| 0 <= i < ms.len() ==> is_single_half(#[trigger] ms[i]) {
        Ok(())
    } else {
        stack_check(all_parts(ms), all_parts(ms).len() as int)
    }
}

/// Whether matrix `i` has other columns than the first.
pub open spec fn column_mismatch(ms: Seq<MatrixWeight>, i: int) -> bool {
    0 <= i < ms.len() && ms[i].dims()[1] != ms[0].dims()[1]
}

/// The copies that merge unquantized matrices: each follows the one before.
pub open spec fn merge_copies(ms: Seq<MatrixWeight>, copies: Seq<RowCopy>) -> bool {
    &&& copies.len() == ms.len()
    &&& forall|i: int|
        0 <= i < ms.len() ==> (#[trigger] copies[i]).source == ms[i].stack()[0]->F16_data.id
            && copies[i].offset == 2 * (matrix_rows_before(ms, i) * ms[0].dims()[1])
            && copies[i].bytes == 2 * (ms[i].dims()[0] * ms[0].dims()[1])
}

/// What `concat_weight_rows_2d` gives.
pub open spec fn concat_of(ms: Seq<MatrixWeight>, r: RowConcat) -> bool {
    if forall|i: int| 0 <= i < ms.len() ==> is_single_half(#[trigger] ms[i]) {
        r matches RowConcat::Merge { rows, cols, copies } && rows == matrix_rows_before(
            ms,
            ms.len() as int,
        ) && cols == ms[0].dims()[1] && merge_copies(ms, copies@)
    } else {
        r matches RowConcat::Parts { weight } && weight.wf() && weight.stack() == all_parts(ms)
    }
}

/// The copies of a merge fill the merged buffer without gap or overlap.
pub proof fn law_merge_fills(ms: Seq<MatrixWeight>, copies: Seq<RowCopy>, i: int)
    requires
        merge_copies(ms, copies),
        0 <= i < ms.len(),
    ensures
        copies[0].offset == 0,
        copies[i].offset + copies[i].bytes == (if i + 1 < ms.len() {
            copies[i + 1].offset as int
        } else {
            2 * (matrix_rows_before(ms, ms.len() as int) * ms[0].dims()[1])
        }),
{
    let cols = ms[0].dims()[1] as int;
    assert(copies[0].offset == 2 * (matrix_rows_before(ms, 0) * cols));
    assert(matrix_rows_before(ms, 0) * cols == 0);
    assert(matrix_rows_before(ms, i + 1) * cols == matrix_rows_before(ms, i) * cols
        + ms[i].dims()[0] * cols) by (nonlinear_arith)
        requires
            matrix_rows_before(ms, i + 1) == matrix_rows_before(ms, i) + ms[i].dims()[0],
    ;
    if i + 1 < ms.len() {
        let next = copies[i + 1];
    }
}

proof fn lemma_matrix_rows(ms: Seq<MatrixWeight>, a: int, b: int)
    requires
        0 <= a <= b,
    ensures
        0 <= matrix_rows_before(ms, a) <= matrix_rows_before(ms, b),
    decreases b,
{
    if a < b {
        lemma_matrix_rows(ms, a, b - 1);
    } else if a > 0 {
        lemma_matrix_rows(ms, a - 1, a - 1);
    }
}

/// The parts of the first `k` matrices, and then of the next.
proof fn lemma_all_parts_step(ms: Seq<MatrixWeight>, k: int)
    requires
        0 <= k < ms.len(),
    ensures
        all_parts(ms.subrange(0, k + 1)) == all_parts(ms.subrange(0, k)) + ms[k].stack(),
{
    assert(ms.subrange(0, k + 1).drop_last() =~= ms.subrange(0, k));
}

/// The first column mismatch is the one that the check names.
proof fn lemma_first_mismatch(ms: Seq<MatrixWeight>, i: int)
    requires
        column_mismatch(ms, i),
        forall|k: int| 0 <= k < i ==> !column_mismatch(ms, k),
    ensures
        concat_check(ms) == Err::<(), WeightError>(
            WeightError::Columns { got: ms[i].dims()[1], expected: ms[0].dims()[1] },
        ),
{
    let j = choose|j: int|
        column_mismatch(ms, j) && forall|k: int| k < j ==> !column_mismatch(ms, k);
    assert(column_mismatch(ms, i) && forall|k: int| k < i ==> !column_mismatch(ms, k));
    assert(j == i);
}

/// Puts matrices with the same columns one below the other. Unquantized ones become one
/// buffer; where one is quantized, all stay parts, each in the blocks of its file.
pub fn concat_weight_rows_2d(tensors: Vec<MatrixWeight>) -> (r: Result<RowConcat, WeightError>)
    requires
        forall|i: int|
            0 <= i < tensors@.len() ==> (#[trigger] tensors@[i]).wf() && tensors@[i].dims().len()
                >= 2,
        tensors@.len() > 0 ==> 2 * (matrix_rows_before(tensors@, tensors@.len() as int)
            * tensors@[0].dims()[1]) <= usize::MAX && matrix_rows_before(
            tensors@,
            tensors@.len() as int,
        ) <= usize::MAX,
    ensures
        match r {
            Ok(c) => concat_check(tensors@) is Ok && concat_of(tensors@, c),
            Err(e) => concat_check(tensors@) == Err::<(), WeightError>(e),
        },
{
    let ghost ms = tensors@;
    let count: usize = tensors.len();
    if count == 0 {
        return Err(WeightError::NoParts);
    }
    let cols: usize = tensors[0].cols();
    let mut all_half: bool = true;
    let mut i: usize = 0;
    while i < count
        invariant
            i <= count,
            count == ms.len(),
            ms == tensors@,
            count > 0,
            cols == ms[0].dims()[1],
            forall|k: int| 0 <= k < ms.len() ==> (#[trigger] ms[k]).dims().len() >= 2,
            forall|k: int| 0 <= k < i ==> !column_mismatch(ms, k),
            all_half == forall|k: int| 0 <= k < i ==> is_single_half(#[trigger] ms[k]),
        decreases count - i,
    {
        let t: &MatrixWeight = &tensors[i];
        assert(*t == ms[i as int]);
        if t.cols() != cols {
            assert(column_mismatch(ms, i as int));
            proof {
                lemma_first_mismatch(ms, i as int);
            }
            return Err(WeightError::Columns { got: t.cols(), expected: cols });
        }
        all_half = all_half && t.is_f16_single();
        i = i + 1;
    }
    assert forall|k: int| !column_mismatch(ms, k) by {}
    if !all_half {
        let mut parts: Vec<Weight> = Vec::new();
        let mut left: Vec<MatrixWeight> = tensors;
        let ghost mut k: int = 0;
        assert(ms.subrange(0, 0) =~= Seq::empty());
        assert(left@ =~= ms.subrange(0, ms.len() as int));
        while left.len() > 0
            invariant
                0 <= k <= ms.len(),
                left@ == ms.subrange(k, ms.len() as int),
                parts@ == all_parts(ms.subrange(0, k)),
            decreases left.len(),
        {
            let m: MatrixWeight = left.remove(0);
            let mut own: Vec<Weight> = m.parts;
            proof {
                lemma_all_parts_step(ms, k);
                k = k + 1;
            }
            parts.append(&mut own);
            assert(left@ =~= ms.subrange(k, ms.len() as int));
        }
        assert(ms.subrange(0, ms.len() as int) =~= ms);
        proof {
            lemma_first_part(ms);
        }
        let weight: MatrixWeight = MatrixWeight::row_concat(parts)?;
        return Ok(RowConcat::Parts { weight });
    }
    let mut copies: Vec<RowCopy> = Vec::new();
    let mut rows: usize = 0;
    let mut j: usize = 0;
    while j < count
        invariant
            j <= count,
            count == ms.len(),
            ms == tensors@,
            count > 0,
            cols == ms[0].dims()[1],
            forall|k: int| 0 <= k < ms.len() ==> (#[trigger] ms[k]).dims().len() >= 2,
            forall|k: int| 0 <= k < ms.len() ==> is_single_half(#[trigger] ms[k]),
            rows == matrix_rows_before(ms, j as int),
            2 * (matrix_rows_before(ms, ms.len() as int) * cols) <= usize::MAX,
            matrix_rows_before(ms, ms.len() as int) <= usize::MAX,
            copies@.len() == j,
            forall|i: int|
                0 <= i < j ==> (#[trigger] copies@[i]).source == ms[i].stack()[0]->F16_data.id
                    && copies@[i].offset == 2 * (matrix_rows_before(ms, i) * cols)
                    && copies@[i].bytes == 2 * (ms[i].dims()[0] * cols),
        decreases count - j,
    {
        let t: &MatrixWeight = &tensors[j];
        assert(*t == ms[j as int]);
        let n: usize = t.rows();
        proof {
            lemma_matrix_rows(ms, j + 1, ms.len() as int);
            lemma_matrix_rows(ms, j as int, j as int);
            let all = matrix_rows_before(ms, ms.len() as int);
            assert(2 * (rows * cols) <= usize::MAX && 2 * (n * cols) <= usize::MAX && rows * cols
                >= 0 && n * cols >= 0) by (nonlinear_arith)
                requires
                    2 * (all * cols) <= usize::MAX,
                    0 <= rows,
                    0 <= n,
                    rows + n <= all,
                    0 <= cols,
            ;
        }
        match t.single_f16() {
            Some(b) => {
                copies.push(
                    RowCopy { source: b.id, offset: rows * cols * 2, bytes: n * cols * 2 },
                );
            },
            None => {},
        }
        rows = rows + n;
        j = j + 1;
    }
    Ok(RowConcat::Merge { rows, cols, copies })
}

/// The first of all parts is the first part of the first matrix.
proof fn lemma_first_part(ms: Seq<MatrixWeight>)
    requires
        ms.len() > 0,
        forall|i: int| 0 <= i < ms.len() ==> (#[trigger] ms[i]).wf(),
        ms[0].dims().len() >= 2,
    ensures
        all_parts(ms).len() > 0,
        all_parts(ms)[0] == ms[0].stack()[0],
        all_parts(ms)[0].dims().len() >= 2,
    decreases ms.len(),
{
    if ms.len() > 1 {
        assert(ms.drop_last()[0] == ms[0]);
        assert forall|i: int| 0 <= i < ms.drop_last().len() implies (#[trigger] ms.drop_last()[i]).wf() by {
            assert(ms.drop_last()[i] == ms[i]);
        }
        lemma_first_part(ms.drop_last());
    } else {
        assert(all_parts(ms.drop_last()) =~= Seq::empty());
        assert(all_parts(ms) =~= ms[0].stack());
    }
}

} // verus!
