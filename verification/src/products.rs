//! Products with weights: which kernels compute them.
use crate::cublas::{gemm_dims, gemm_dims_check, GemmDims, I32_MAX};
use crate::dequant::GgmlType;
use crate::kernel::{new_call, plain_call, CallModel, Grid, Hint, Kernel, KernelCall, LaunchError};
use crate::weights::{rows_before, MatrixWeight, QuantizedStorage, Weight};
use vstd::prelude::*;

verus! {

/// Which parts of the blocks of a quantized weight are kept apart.
#[derive(Clone, Copy, Debug, PartialEq, Eq, Structural)]
#[allow(non_camel_case_types)]
pub enum Soa {
    Whole,
    Q8_0,
    Q4K,
    Q6K,
}

/// What a product has to know of a weight matrix.
#[derive(Clone, Copy, Debug, PartialEq, Eq, Structural)]
pub struct Part {
    pub dtype: GgmlType,
    pub quantized: bool,
    /// Whether the blocks of the file are there.
    pub native: bool,
    pub soa: Soa,
    pub rows: usize,
    pub cols: usize,
}

/// What a product has to know of a weight.
pub open spec fn part_spec(w: Weight) -> Part {
    Part {
        dtype: w.ty(),
        quantized: !(w is F16),
        native: !(w is F16),
        soa: match w.quant() {
            Some(q) => match q.storage {
                QuantizedStorage::Native { .. } => Soa::Whole,
                QuantizedStorage::Q8_0Soa { .. } => Soa::Q8_0,
            },
            None => Soa::Whole,
        },
        rows: w.dims()[0],
        cols: w.dims()[1],
    }
}

/// What products have to know of the parts of a matrix.
pub open spec fn part_specs(parts: Seq<Weight>) -> Seq<Part> {
    parts.map_values(|w: Weight| part_spec(w))
}

/// What a product has to know of a weight.
pub fn part_of(w: &Weight) -> (r: Part)
    requires
        w.dims().len() == 2,
    ensures
        r == part_spec(*w),
{
    let quantized: bool = w.is_quantized();
    let soa: Soa = match w.as_quantized() {
        Some((_, q)) => match &q.storage {
            QuantizedStorage::Native { .. } => Soa::Whole,
            QuantizedStorage::Q8_0Soa { .. } => Soa::Q8_0,
        },
        None => Soa::Whole,
    };
    Part {
        dtype: w.dtype(),
        quantized,
        native: quantized,
        soa,
        rows: w.rows(),
        cols: w.cols(),
    }
}

/// Compile-time parameters of a product with split Q6K blocks.
pub open spec fn q6k_soa_generics(k: usize) -> Seq<usize> {
    seq![k, k / 16, k / 256, 1]
}

/// Compile-time parameters of a product with split Q4K blocks.
pub open spec fn q4k_soa_generics(k: usize) -> Seq<usize> {
    seq![k / 2, k / 32, 1]
}

/// Compile-time parameters of a product with split Q6K blocks.
pub fn q6k_soa_gemv_generics(k: usize) -> (r: Vec<usize>)
    ensures
        r@ == q6k_soa_generics(k),
{
    let v: Vec<usize> = vec![k, k / 16, k / 256, 1];
    assert(v@ =~= q6k_soa_generics(k));
    v
}

/// Compile-time parameters of a product with split Q4K blocks.
pub fn q4k_soa_gemv_generics(k: usize) -> (r: Vec<usize>)
    ensures
        r@ == q4k_soa_generics(k),
{
    let v: Vec<usize> = vec![k / 2, k / 32, 1];
    assert(v@ =~= q4k_soa_generics(k));
    v
}

/// How many blocks of a product share a multiprocessor, with split Q6K blocks.
pub const Q6K_SOA_OCCUPANCY: usize = 1;

/// How many blocks of a product share a multiprocessor, with other split blocks.
pub const SOA_OCCUPANCY: usize = 4;

/// The kernel that multiplies a vector by split blocks of `rows` rows and `cols` columns.
/// `grid` says whether the blocks of the launch are given or follow from the tiles.
pub open spec fn soa_call(soa: Soa, rows: usize, cols: usize, grid: bool) -> CallModel {
    let (kernel, tile, generics, occupancy) = match soa {
        Soa::Q6K => (Kernel::GemvQ6KSoa, 8usize, q6k_soa_generics(cols), Q6K_SOA_OCCUPANCY),
        Soa::Q4K => (Kernel::GemvQ4KSoa, 16usize, q4k_soa_generics(cols), SOA_OCCUPANCY),
        _ => (Kernel::GemvQ8_0Soa, 8usize, seq![cols, cols / 32, 1usize], SOA_OCCUPANCY),
    };
    CallModel {
        kernel,
        tile: seq![tile],
        second_tile: Seq::empty(),
        ints: seq![rows],
        generics,
        grid: if grid {
            Some(Grid { x: rows / tile, y: 1, z: 1 })
        } else {
            None
        },
        hint: Hint::Occupancy(occupancy),
    }
}

fn new_soa_call(soa: Soa, rows: usize, cols: usize, grid: bool) -> (r: KernelCall)
    ensures
        r@ == soa_call(soa, rows, cols, grid),
{
    let (kernel, tile, generics, occupancy): (Kernel, usize, Vec<usize>, usize) = match soa {
        Soa::Q6K => (Kernel::GemvQ6KSoa, 8, q6k_soa_gemv_generics(cols), Q6K_SOA_OCCUPANCY),
        Soa::Q4K => (Kernel::GemvQ4KSoa, 16, q4k_soa_gemv_generics(cols), SOA_OCCUPANCY),
        _ => (Kernel::GemvQ8_0Soa, 8, vec![cols, cols / 32, 1], SOA_OCCUPANCY),
    };
    let mut call: KernelCall = new_call(kernel, vec![tile], generics);
    call.ints = vec![rows];
    call.grid = if grid {
        Some(Grid { x: rows / tile, y: 1, z: 1 })
    } else {
        None
    };
    call.hint = Hint::Occupancy(occupancy);
    assert(call@ =~= soa_call(soa, rows, cols, grid));
    call
}

/// Whether split Q8_0 blocks fit the tiles of their kernel.
pub open spec fn q8_0_tiles(p: Part) -> Result<(), LaunchError> {
    if p.soa != Soa::Q8_0 {
        Err(LaunchError::Layout)
    } else if p.cols % 512 != 0 {
        Err(LaunchError::Columns { cols: p.cols })
    } else if p.rows % 8 != 0 {
        Err(LaunchError::Rows { rows: p.rows })
    } else {
        Ok(())
    }
}

fn check_q8_0_tiles(p: Part) -> (r: Result<(), LaunchError>)
    ensures
        r == q8_0_tiles(p),
{
    match p.soa {
        Soa::Q8_0 => {},
        _ => {
            return Err(LaunchError::Layout);
        },
    }
    if p.cols % 512 != 0 {
        return Err(LaunchError::Columns { cols: p.cols });
    }
    if p.rows % 8 != 0 {
        return Err(LaunchError::Rows { rows: p.rows });
    }
    Ok(())
}

/// The kernel that multiplies a vector of `len` elements by a quantized weight, into a
/// tensor of shape `out`.
pub open spec fn gemv_part(p: Part, len: usize, out: Seq<usize>) -> Result<CallModel, LaunchError> {
    if !p.quantized {
        Err(LaunchError::NotQuantized)
    } else if p.cols != len {
        Err(LaunchError::InputShape)
    } else if out != seq![p.rows] {
        Err(LaunchError::OutputShape)
    } else if p.cols > I32_MAX {
        Err(LaunchError::TooLarge)
    } else if p.dtype is Q8_0 {
        match q8_0_tiles(p) {
            Err(e) => Err(e),
            Ok(_) => Ok(soa_call(Soa::Q8_0, p.rows, p.cols, true)),
        }
    } else if p.soa == Soa::Q6K || p.soa == Soa::Q4K {
        Ok(soa_call(p.soa, p.rows, p.cols, true))
    } else if !p.native {
        Err(LaunchError::Layout)
    } else {
        match native_gemv(p.dtype) {
            None => Err(LaunchError::UnsupportedType),
            Some(kernel) => Ok(
                CallModel {
                    grid: Some(Grid { x: p.rows, y: 1, z: 1 }),
                    ..plain_call(kernel, seq![1], seq![p.cols])
                },
            ),
        }
    }
}

/// The kernel that multiplies by the blocks of the file.
pub open spec fn native_gemv(dtype: GgmlType) -> Option<Kernel> {
    match dtype {
        GgmlType::Q4K => Some(Kernel::GemvQ4K),
        GgmlType::Q5K => Some(Kernel::GemvQ5K),
        GgmlType::Q6K => Some(Kernel::GemvQ6K),
        _ => None,
    }
}

/// Whether a shape is that of a vector of `rows` elements.
pub fn is_rows(shape: &[usize], rows: usize) -> (r: bool)
    ensures
        r == (shape@ == seq![rows]),
{
    if shape.len() == 1 && shape[0] == rows {
        assert(shape@ =~= seq![rows]);
        true
    } else {
        false
    }
}

/// Whether a shape is that of an `a` by `b` matrix.
pub fn is_matrix_shape(shape: &[usize], a: usize, b: usize) -> (r: bool)
    ensures
        r == (shape@ == seq![a, b]),
{
    if shape.len() == 2 && shape[0] == a && shape[1] == b {
        assert(shape@ =~= seq![a, b]);
        true
    } else {
        false
    }
}

/// The kernel that multiplies a vector of `len` elements by a quantized weight, into a
/// tensor of shape `out`.
pub fn gemv_quant_part(p: Part, len: usize, out: &[usize]) -> (r: Result<KernelCall, LaunchError>)
    ensures
        match r {
            Ok(c) => gemv_part(p, len, out@) == Ok::<CallModel, LaunchError>(c@),
            Err(e) => gemv_part(p, len, out@) == Err::<CallModel, LaunchError>(e),
        },
{
    if !p.quantized {
        return Err(LaunchError::NotQuantized);
    }
    if p.cols != len {
        return Err(LaunchError::InputShape);
    }
    if !is_rows(out, p.rows) {
        return Err(LaunchError::OutputShape);
    }
    if p.cols > I32_MAX {
        return Err(LaunchError::TooLarge);
    }
    match p.dtype {
        GgmlType::Q8_0 => {
            check_q8_0_tiles(p)?;
            return Ok(new_soa_call(Soa::Q8_0, p.rows, p.cols, true));
        },
        _ => {},
    }
    match p.soa {
        Soa::Q6K | Soa::Q4K => {
            return Ok(new_soa_call(p.soa, p.rows, p.cols, true));
        },
        _ => {},
    }
    if !p.native {
        return Err(LaunchError::Layout);
    }
    let kernel: Kernel = match p.dtype {
        GgmlType::Q4K => Kernel::GemvQ4K,
        GgmlType::Q5K => Kernel::GemvQ5K,
        GgmlType::Q6K => Kernel::GemvQ6K,
        _ => {
            return Err(LaunchError::UnsupportedType);
        },
    };
    let mut call: KernelCall = new_call(kernel, vec![1], vec![p.cols]);
    call.grid = Some(Grid { x: p.rows, y: 1, z: 1 });
    assert(call@ =~= (CallModel {
        grid: Some(Grid { x: p.rows, y: 1, z: 1 }),
        ..plain_call(kernel, seq![1], seq![p.cols])
    }));
    Ok(call)
}

/// The kernel that multiplies a vector by a quantized weight while the steps of one token
/// are recorded: the blocks of the launch follow from the tiles of the output.
pub open spec fn decode_gemv_part(p: Part) -> Result<CallModel, LaunchError> {
    if !p.quantized {
        Err(LaunchError::NotQuantized)
    } else {
        match p.dtype {
            GgmlType::Q8_0 => match q8_0_tiles(p) {
                Err(e) => Err(e),
                Ok(_) => Ok(soa_call(Soa::Q8_0, p.rows, p.cols, false)),
            },
            GgmlType::Q4K => if p.soa == Soa::Q4K {
                Ok(soa_call(Soa::Q4K, p.rows, p.cols, false))
            } else {
                decode_native(Kernel::GemvQ4KInto, p)
            },
            GgmlType::Q6K => if p.soa == Soa::Q6K {
                Ok(soa_call(Soa::Q6K, p.rows, p.cols, false))
            } else {
                decode_native(Kernel::GemvQ6KInto, p)
            },
            GgmlType::Q5K => decode_native(Kernel::GemvQ5KInto, p),
            _ => Err(LaunchError::UnsupportedType),
        }
    }
}

/// The kernel that multiplies by the blocks of the file and gets the row count.
pub open spec fn decode_native(kernel: Kernel, p: Part) -> Result<CallModel, LaunchError> {
    if p.native {
        Ok(CallModel { ints: seq![p.rows], ..plain_call(kernel, seq![1], seq![p.cols]) })
    } else {
        Err(LaunchError::Layout)
    }
}

fn new_decode_native(kernel: Kernel, p: Part) -> (r: Result<KernelCall, LaunchError>)
    ensures
        match r {
            Ok(c) => decode_native(kernel, p) == Ok::<CallModel, LaunchError>(c@),
            Err(e) => decode_native(kernel, p) == Err::<CallModel, LaunchError>(e),
        },
{
    if !p.native {
        return Err(LaunchError::Layout);
    }
    let mut call: KernelCall = new_call(kernel, vec![1], vec![p.cols]);
    call.ints = vec![p.rows];
    assert(call@ =~= (CallModel {
        ints: seq![p.rows],
        ..plain_call(kernel, seq![1], seq![p.cols])
    }));
    Ok(call)
}

/// The kernel that multiplies a vector by a quantized weight while the steps of one token
/// are recorded.
pub fn quant_gemv_part_record(p: Part) -> (r: Result<KernelCall, LaunchError>)
    ensures
        match r {
            Ok(c) => decode_gemv_part(p) == Ok::<CallModel, LaunchError>(c@),
            Err(e) => decode_gemv_part(p) == Err::<CallModel, LaunchError>(e),
        },
{
    if !p.quantized {
        return Err(LaunchError::NotQuantized);
    }
    match p.dtype {
        GgmlType::Q8_0 => {
            check_q8_0_tiles(p)?;
            Ok(new_soa_call(Soa::Q8_0, p.rows, p.cols, false))
        },
        GgmlType::Q4K => match p.soa {
            Soa::Q4K => Ok(new_soa_call(Soa::Q4K, p.rows, p.cols, false)),
            _ => new_decode_native(Kernel::GemvQ4KInto, p),
        },
        GgmlType::Q6K => match p.soa {
            Soa::Q6K => Ok(new_soa_call(Soa::Q6K, p.rows, p.cols, false)),
            _ => new_decode_native(Kernel::GemvQ6KInto, p),
        },
        GgmlType::Q5K => new_decode_native(Kernel::GemvQ5KInto, p),
        _ => Err(LaunchError::UnsupportedType),
    }
}

/// One part of a product that is computed part by part: a kernel fills a scratch vector
/// of `rows` elements, which then goes to the output from `offset` on.
#[derive(Debug)]
pub struct PartStep {
    pub rows: usize,
    pub offset: usize,
    pub call: KernelCall,
}

/// What a part step is.
#[verifier::ext_equal]
pub struct PartStepModel {
    pub rows: usize,
    pub offset: usize,
    pub call: CallModel,
}

impl View for PartStep {
    type V = PartStepModel;

    open spec fn view(&self) -> PartStepModel {
        PartStepModel { rows: self.rows, offset: self.offset, call: self.call@ }
    }
}

/// What part steps are.
pub open spec fn step_models(s: Seq<PartStep>) -> Seq<PartStepModel> {
    s.map_values(|x: PartStep| x@)
}

/// How a product is computed.
#[derive(Debug)]
pub enum Product {
    /// By the matrix library, on the matrix from a byte offset on.
    Library { dims: GemmDims, byte_offset: usize },
    /// By one kernel.
    Direct { call: KernelCall },
    /// Part by part.
    Parts { steps: Vec<PartStep> },
    /// A kernel unpacks the weight into the scratch buffer, and the library multiplies.
    Unpacked { call: KernelCall, dims: GemmDims },
}

/// What a product is.
#[verifier::ext_equal]
pub enum ProductModel {
    Library { dims: GemmDims, byte_offset: usize },
    Direct { call: CallModel },
    Parts { steps: Seq<PartStepModel> },
    Unpacked { call: CallModel, dims: GemmDims },
}

impl View for Product {
    type V = ProductModel;

    open spec fn view(&self) -> ProductModel {
        match *self {
            Product::Library { dims, byte_offset } => ProductModel::Library { dims, byte_offset },
            Product::Direct { call } => ProductModel::Direct { call: call@ },
            Product::Parts { steps } => ProductModel::Parts { steps: step_models(steps@) },
            Product::Unpacked { call, dims } => ProductModel::Unpacked { call: call@, dims },
        }
    }
}

/// The kernel of one of several parts. While the steps of one token are recorded, all
/// parts share a scratch vector of `tmp` elements.
pub open spec fn one_of_parts(p: Part, len: usize, tmp: Option<usize>) -> Result<
    CallModel,
    LaunchError,
> {
    match tmp {
        None => gemv_part(p, len, seq![p.rows]),
        Some(have) => if have < p.rows {
            Err(LaunchError::ScratchTooSmall { need: p.rows, have })
        } else {
            decode_gemv_part(p)
        },
    }
}

/// The first `k` parts of a product that is computed part by part.
pub open spec fn part_steps(parts: Seq<Weight>, k: int, len: usize, tmp: Option<usize>) -> Result<
    Seq<PartStepModel>,
    LaunchError,
>
    decreases k,
{
    if k <= 0 {
        Ok(Seq::empty())
    } else {
        match part_steps(parts, k - 1, len, tmp) {
            Err(e) => Err(e),
            Ok(s) => match one_of_parts(part_spec(parts[k - 1]), len, tmp) {
                Err(e) => Err(e),
                Ok(call) => Ok(
                    s.push(
                        PartStepModel {
                            rows: parts[k - 1].dims()[0],
                            offset: rows_before(parts, k - 1) as usize,
                            call,
                        },
                    ),
                ),
            },
        }
    }
}

proof fn lemma_steps_error(parts: Seq<Weight>, a: int, b: int, len: usize, tmp: Option<usize>)
    requires
        0 <= a <= b,
        part_steps(parts, a, len, tmp) is Err,
    ensures
        part_steps(parts, b, len, tmp) == part_steps(parts, a, len, tmp),
    decreases b,
{
    if a < b {
        lemma_steps_error(parts, a, b - 1, len, tmp);
    }
}

proof fn lemma_rows_grow(parts: Seq<Weight>, a: int, b: int)
    requires
        0 <= a <= b,
    ensures
        0 <= rows_before(parts, a) <= rows_before(parts, b),
    decreases b,
{
    if a < b {
        lemma_rows_grow(parts, a, b - 1);
    } else if a > 0 {
        lemma_rows_grow(parts, a - 1, a - 1);
    }
}

/// A product that is computed part by part fills its output without gap or overlap: the
/// parts go one below the other, and together they are all rows.
pub proof fn law_parts_fill_output(m: MatrixWeight, k: int, len: usize, tmp: Option<usize>)
    requires
        m.wf(),
        m.dims().len() == 2,
        m.stack().len() > 1,
        0 <= k <= m.stack().len(),
    ensures
        part_steps(m.stack(), k, len, tmp) matches Ok(s) ==> {
            &&& s.len() == k
            &&& forall|i: int|
                0 <= i < k ==> (#[trigger] s[i]).offset == rows_before(m.stack(), i) && s[i].offset
                    + s[i].rows == rows_before(m.stack(), i + 1)
            &&& rows_before(m.stack(), m.stack().len() as int) == m.dims()[0]
        },
    decreases k,
{
    if k > 0 {
        law_parts_fill_output(m, k - 1, len, tmp);
        lemma_rows_grow(m.stack(), k - 1, m.stack().len() as int);
    }
}

/// Whether a matrix is one unquantized part.
pub open spec fn one_half(m: MatrixWeight) -> bool {
    m.stack().len() == 1 && m.stack()[0] is F16
}

/// How a vector of shape `vector` is multiplied by a matrix, into a tensor of shape `out`.
pub open spec fn gemv_spec(m: MatrixWeight, vector: Seq<usize>, out: Seq<usize>) -> Result<
    ProductModel,
    LaunchError,
> {
    if vector.len() != 1 {
        Err(LaunchError::Rank { rank: vector.len() as usize })
    } else if m.dims()[1] != vector[0] {
        Err(LaunchError::InputShape)
    } else if out != seq![m.dims()[0]] {
        Err(LaunchError::OutputShape)
    } else if one_half(m) {
        match gemm_dims_check(GemmDims { m: m.dims()[0], n: 1, k: m.dims()[1] }) {
            Err(e) => Err(e),
            Ok(dims) => Ok(ProductModel::Library { dims, byte_offset: 0 }),
        }
    } else if m.stack().len() == 1 {
        match gemv_part(part_spec(m.stack()[0]), vector[0], out) {
            Err(e) => Err(e),
            Ok(call) => Ok(ProductModel::Direct { call }),
        }
    } else {
        match part_steps(m.stack(), m.stack().len() as int, vector[0], None) {
            Err(e) => Err(e),
            Ok(steps) => Ok(ProductModel::Parts { steps }),
        }
    }
}

fn plan_parts(m: &MatrixWeight, len: usize, tmp: Option<usize>) -> (r: Result<
    Vec<PartStep>,
    LaunchError,
>)
    requires
        m.wf(),
        m.dims().len() == 2,
        m.stack().len() > 1 || m.stack()[0].dims().len() == 2,
    ensures
        match r {
            Ok(v) => part_steps(m.stack(), m.stack().len() as int, len, tmp) == Ok::<
                Seq<PartStepModel>,
                LaunchError,
            >(step_models(v@)),
            Err(e) => part_steps(m.stack(), m.stack().len() as int, len, tmp) == Err::<
                Seq<PartStepModel>,
                LaunchError,
            >(e),
        },
{
    let parts: &[Weight] = m.parts();
    let ghost all = m.stack();
    let ghost count = all.len() as int;
    let mut steps: Vec<PartStep> = Vec::new();
    let mut offset: usize = 0;
    let mut i: usize = 0;
    proof {
        assert(step_models(steps@) =~= Seq::empty());
        assert(count == 1 ==> rows_before(all, 1) == rows_before(all, 0) + all[0].dims()[0]);
    }
    while i < parts.len()
        invariant
            i <= parts.len(),
            parts@ == all,
            all == m.stack(),
            count == all.len(),
            m.wf(),
            m.dims().len() == 2,
            rows_before(all, count) == m.dims()[0],
            offset == rows_before(all, i as int),
            part_steps(all, i as int, len, tmp) == Ok::<Seq<PartStepModel>, LaunchError>(
                step_models(steps@),
            ),
        decreases parts.len() - i,
    {
        let w: &Weight = &parts[i];
        assert(m.stack()[i as int].dims().len() == 2);
        let p: Part = part_of(w);
        let rows: usize = w.rows();
        let shape: Vec<usize> = vec![rows];
        assert(shape@ =~= seq![rows]);
        let made: Result<KernelCall, LaunchError> = match tmp {
            None => gemv_quant_part(p, len, shape.as_slice()),
            Some(have) => if have < rows {
                Err(LaunchError::ScratchTooSmall { need: rows, have })
            } else {
                quant_gemv_part_record(p)
            },
        };
        match made {
            Ok(call) => {
                let ghost before = step_models(steps@);
                let step = PartStep { rows, offset, call };
                steps.push(step);
                assert(step_models(steps@) =~= before.push(step@));
            },
            Err(e) => {
                proof {
                    lemma_steps_error(all, i + 1, count, len, tmp);
                }
                return Err(e);
            },
        }
        proof {
            lemma_rows_grow(all, i + 1, count);
        }
        offset = offset + rows;
        i = i + 1;
    }
    Ok(steps)
}

/// How a vector of shape `vector` is multiplied by a matrix, into a tensor of shape `out`.
pub fn gemv_into(m: &MatrixWeight, vector: &[usize], out: &[usize]) -> (r: Result<
    Product,
    LaunchError,
>)
    requires
        m.wf(),
        m.dims().len() == 2,
    ensures
        match r {
            Ok(p) => gemv_spec(*m, vector@, out@) == Ok::<ProductModel, LaunchError>(p@),
            Err(e) => gemv_spec(*m, vector@, out@) == Err::<ProductModel, LaunchError>(e),
        },
{
    if vector.len() != 1 {
        return Err(LaunchError::Rank { rank: vector.len() });
    }
    let rows: usize = m.rows();
    let cols: usize = m.cols();
    if cols != vector[0] {
        return Err(LaunchError::InputShape);
    }
    if !is_rows(out, rows) {
        return Err(LaunchError::OutputShape);
    }
    if m.is_f16_single() {
        let dims: GemmDims = gemm_dims(rows, 1, cols)?;
        return Ok(Product::Library { dims, byte_offset: 0 });
    }
    if m.parts().len() == 1 {
        let call: KernelCall = gemv_quant_part(part_of(&m.parts()[0]), cols, out)?;
        return Ok(Product::Direct { call });
    }
    let steps: Vec<PartStep> = plan_parts(m, cols, None)?;
    Ok(Product::Parts { steps })
}

/// How a vector is multiplied by a half-precision tensor whose shape begins with the rows
/// and columns of a matrix.
pub open spec fn half_gemv_spec(matrix: Seq<usize>, vector: Seq<usize>, out: Seq<usize>) -> Result<
    ProductModel,
    LaunchError,
> {
    if vector.len() != 1 {
        Err(LaunchError::Rank { rank: vector.len() as usize })
    } else if matrix[1] != vector[0] {
        Err(LaunchError::InputShape)
    } else if out != seq![matrix[0]] {
        Err(LaunchError::OutputShape)
    } else {
        match gemm_dims_check(GemmDims { m: matrix[0], n: 1, k: matrix[1] }) {
            Err(e) => Err(e),
            Ok(dims) => Ok(ProductModel::Library { dims, byte_offset: 0 }),
        }
    }
}

/// How a vector is multiplied by a half-precision tensor.
pub fn half_gemv_into(matrix: &[usize], vector: &[usize], out: &[usize]) -> (r: Result<
    Product,
    LaunchError,
>)
    requires
        matrix@.len() >= 2,
    ensures
        match r {
            Ok(p) => half_gemv_spec(matrix@, vector@, out@) == Ok::<ProductModel, LaunchError>(p@),
            Err(e) => half_gemv_spec(matrix@, vector@, out@) == Err::<ProductModel, LaunchError>(e),
        },
{
    if vector.len() != 1 {
        return Err(LaunchError::Rank { rank: vector.len() });
    }
    if matrix[1] != vector[0] {
        return Err(LaunchError::InputShape);
    }
    if !is_rows(out, matrix[0]) {
        return Err(LaunchError::OutputShape);
    }
    let dims: GemmDims = gemm_dims(matrix[0], 1, matrix[1])?;
    Ok(Product::Library { dims, byte_offset: 0 })
}

/// How a vector is multiplied by a matrix while the steps of one token are recorded, into
/// a tensor of shape `out`, with a scratch vector of `tmp` elements.
pub open spec fn decode_gemv_spec(m: MatrixWeight, out: Seq<usize>, tmp: usize) -> Result<
    ProductModel,
    LaunchError,
> {
    if one_half(m) {
        Ok(
            ProductModel::Library {
                dims: GemmDims { m: m.dims()[0], n: 1, k: m.dims()[1] },
                byte_offset: 0,
            },
        )
    } else if m.stack().len() == 1 && out == seq![m.dims()[0]] {
        match decode_gemv_part(part_spec(m.stack()[0])) {
            Err(e) => Err(e),
            Ok(call) => Ok(ProductModel::Direct { call }),
        }
    } else {
        match part_steps(m.stack(), m.stack().len() as int, m.dims()[1], Some(tmp)) {
            Err(e) => Err(e),
            Ok(steps) => Ok(ProductModel::Parts { steps }),
        }
    }
}

/// How a vector is multiplied by a matrix while the steps of one token are recorded.
pub fn decode_gemv(m: &MatrixWeight, out: &[usize], tmp: usize) -> (r: Result<
    Product,
    LaunchError,
>)
    requires
        m.wf(),
        m.dims().len() == 2,
    ensures
        match r {
            Ok(p) => decode_gemv_spec(*m, out@, tmp) == Ok::<ProductModel, LaunchError>(p@),
            Err(e) => decode_gemv_spec(*m, out@, tmp) == Err::<ProductModel, LaunchError>(e),
        },
{
    let rows: usize = m.rows();
    let cols: usize = m.cols();
    if m.is_f16_single() {
        return Ok(
            Product::Library { dims: GemmDims { m: rows, n: 1, k: cols }, byte_offset: 0 },
        );
    }
    if m.parts().len() == 1 && is_rows(out, rows) {
        let call: KernelCall = quant_gemv_part_record(part_of(&m.parts()[0]))?;
        return Ok(Product::Direct { call });
    }
    let steps: Vec<PartStep> = plan_parts(m, cols, Some(tmp))?;
    Ok(Product::Parts { steps })
}

/// Elements that a kernel unpacks at once, by element type.
pub open spec fn unpack_tile(dtype: GgmlType) -> Option<usize> {
    match dtype {
        GgmlType::Q8_0 => Some(32),
        GgmlType::Q4K => Some(32),
        GgmlType::Q5K => Some(32),
        GgmlType::Q6K => Some(16),
        _ => None,
    }
}

/// The kernel that unpacks the blocks of the file.
pub open spec fn unpack_kernel(dtype: GgmlType) -> Kernel {
    match dtype {
        GgmlType::Q4K => Kernel::DequantQ4K,
        GgmlType::Q5K => Kernel::DequantQ5K,
        GgmlType::Q6K => Kernel::DequantQ6K,
        _ => Kernel::DequantQ8_0,
    }
}

/// A kernel that unpacks `tiles` tiles.
pub open spec fn unpack_call(kernel: Kernel, tile: usize, tiles: int, generics: Seq<usize>) -> CallModel {
    CallModel { ints: seq![tiles as usize], ..plain_call(kernel, seq![tile], generics) }
}

/// The kernel that unpacks a quantized weight into a scratch buffer of `scratch` elements.
pub open spec fn dequant_spec(p: Part, scratch: usize) -> Result<CallModel, LaunchError> {
    let elems = p.rows * p.cols;
    if !p.quantized {
        Err(LaunchError::NotQuantized)
    } else if elems > scratch {
        Err(LaunchError::ScratchTooSmall { need: elems as usize, have: scratch })
    } else {
        match unpack_tile(p.dtype) {
            None => Err(LaunchError::UnsupportedType),
            Some(tile) => if elems % tile as int != 0 {
                Err(LaunchError::PartialTile { elems: elems as usize })
            } else if elems / tile as int > I32_MAX {
                Err(LaunchError::TooLarge)
            } else if p.soa == Soa::Q6K {
                if elems / 32 > I32_MAX {
                    Err(LaunchError::TooLarge)
                } else {
                    Ok(
                        unpack_call(
                            Kernel::DequantQ6KSoa,
                            32,
                            elems / 32,
                            seq![p.cols, p.cols / 16, p.cols / 256],
                        ),
                    )
                }
            } else if p.soa == Soa::Q4K {
                Ok(
                    unpack_call(
                        Kernel::DequantQ4KSoa,
                        32,
                        elems / tile as int,
                        seq![p.cols / 2, p.cols / 32],
                    ),
                )
            } else if !p.native {
                Err(LaunchError::Layout)
            } else {
                Ok(unpack_call(unpack_kernel(p.dtype), tile, elems / tile as int, Seq::empty()))
            },
        }
    }
}

fn new_unpack_call(kernel: Kernel, tile: usize, tiles: usize, generics: Vec<usize>) -> (r:
    KernelCall)
    ensures
        r@ == unpack_call(kernel, tile, tiles as int, generics@),
{
    let ghost g = generics@;
    let mut call: KernelCall = new_call(kernel, vec![tile], generics);
    call.ints = vec![tiles];
    assert(call@ =~= unpack_call(kernel, tile, tiles as int, g));
    call
}

/// The kernel that unpacks a quantized weight into a scratch buffer of `scratch` elements.
pub fn dequant_weight_to_scratch(p: Part, scratch: usize) -> (r: Result<KernelCall, LaunchError>)
    requires
        p.rows * p.cols <= usize::MAX,
    ensures
        match r {
            Ok(c) => dequant_spec(p, scratch) == Ok::<CallModel, LaunchError>(c@),
            Err(e) => dequant_spec(p, scratch) == Err::<CallModel, LaunchError>(e),
        },
{
    if !p.quantized {
        return Err(LaunchError::NotQuantized);
    }
    let elems: usize = p.rows * p.cols;
    if elems > scratch {
        return Err(LaunchError::ScratchTooSmall { need: elems, have: scratch });
    }
    let (tile, kernel): (usize, Kernel) = match p.dtype {
        GgmlType::Q8_0 => (32, Kernel::DequantQ8_0),
        GgmlType::Q4K => (32, Kernel::DequantQ4K),
        GgmlType::Q5K => (32, Kernel::DequantQ5K),
        GgmlType::Q6K => (16, Kernel::DequantQ6K),
        _ => {
            return Err(LaunchError::UnsupportedType);
        },
    };
    if elems % tile != 0 {
        return Err(LaunchError::PartialTile { elems });
    }
    let tiles: usize = elems / tile;
    if tiles > I32_MAX {
        return Err(LaunchError::TooLarge);
    }
    match p.soa {
        Soa::Q6K => {
            let wide: usize = elems / 32;
            if wide > I32_MAX {
                return Err(LaunchError::TooLarge);
            }
            let generics: Vec<usize> = vec![p.cols, p.cols / 16, p.cols / 256];
            assert(generics@ =~= seq![p.cols, p.cols / 16, p.cols / 256]);
            return Ok(new_unpack_call(Kernel::DequantQ6KSoa, 32, wide, generics));
        },
        Soa::Q4K => {
            let generics: Vec<usize> = vec![p.cols / 2, p.cols / 32];
            assert(generics@ =~= seq![p.cols / 2, p.cols / 32]);
            return Ok(new_unpack_call(Kernel::DequantQ4KSoa, 32, tiles, generics));
        },
        _ => {},
    }
    if !p.native {
        return Err(LaunchError::Layout);
    }
    let generics: Vec<usize> = Vec::new();
    assert(generics@ =~= Seq::empty());
    Ok(new_unpack_call(kernel, tile, tiles, generics))
}

/// The layout of a weight is one of its type, and the weight is made of whole blocks.
pub open spec fn whole_blocks(p: Part) -> bool {
    &&& p.soa == Soa::Q4K ==> p.dtype is Q4K
    &&& p.soa == Soa::Q6K ==> p.dtype is Q6K
    &&& (p.rows * p.cols) % p.dtype.block_elems() as int == 0
}

/// Unpacking a weight of whole blocks writes each of its elements, and nothing beyond
/// the scratch buffer.
#[verifier::spinoff_prover]
pub proof fn law_unpacking_covers(p: Part, scratch: usize)
    requires
        whole_blocks(p),
    ensures
        dequant_spec(p, scratch) matches Ok(c) ==> {
            &&& c.tile.len() == 1
            &&& c.ints.len() == 1
            &&& c.tile[0] * c.ints[0] == p.rows * p.cols
            &&& p.rows * p.cols <= scratch
        },
{
    let elems = p.rows * p.cols;
    assert(elems >= 0) by (nonlinear_arith)
        requires
            elems == p.rows * p.cols,
    ;
    match dequant_spec(p, scratch) {
        Ok(c) => {
            let tile = c.tile[0];
            let tiles = c.ints[0];
            assert(tile == 16 || tile == 32);
            assert(tiles == elems / tile as int);
            let block = p.dtype.block_elems() as int;
            assert(block == 32 || block == 256);
            assert(elems % 32 == 0) by {
                if block == 256 {
                    assert(elems % 256 == 0);
                }
            }
            if tile == 16 {
                assert(tiles == elems / 16);
                assert(16 * tiles == elems);
            } else {
                assert(tiles == elems / 32);
                assert(32 * tiles == elems);
            }
        },
        Err(_) => {},
    }
}

} // verus!
