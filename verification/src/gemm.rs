//! Products of several vectors with a weight, and embeddings.
use crate::cublas::{gemm_dims, gemm_dims_check, GemmDims};
use crate::dequant::GgmlType;
use crate::kernel::{new_call, plain_call, CallModel, Kernel, KernelCall, LaunchError};
use crate::products::{
    dequant_spec, dequant_weight_to_scratch, gemv_into, gemv_spec, half_gemv_spec,
    is_matrix_shape, one_half, part_of, part_spec, Part, Product, ProductModel,
};
use crate::weights::{matrix_elems, MatrixWeight, Weight};
use vstd::prelude::*;

verus! {

/// How the rows of a tensor of shape `rhs` are multiplied by a quantized weight, into a
/// tensor of shape `out`. `scratch` is the size of the scratch buffer, where there is one.
pub open spec fn gemm_part_spec(
    p: Part,
    rhs: Seq<usize>,
    out: Seq<usize>,
    scratch: Option<usize>,
) -> Result<ProductModel, LaunchError> {
    if rhs != seq![rhs[0], p.cols] {
        Err(LaunchError::InputShape)
    } else if out != seq![rhs[0], p.rows] {
        Err(LaunchError::OutputShape)
    } else {
        match scratch {
            None => Err(LaunchError::NoScratch),
            Some(have) => match dequant_spec(p, have) {
                Err(e) => Err(e),
                Ok(call) => Ok(
                    ProductModel::Unpacked {
                        call,
                        dims: GemmDims { m: p.rows, n: rhs[0], k: p.cols },
                    },
                ),
            },
        }
    }
}

/// How the rows of a tensor are multiplied by a quantized weight.
pub fn gemm_quant_part(p: Part, rhs: &[usize], out: &[usize], scratch: Option<usize>) -> (r: Result<
    Product,
    LaunchError,
>)
    requires
        rhs@.len() >= 1,
        p.rows * p.cols <= usize::MAX,
    ensures
        match r {
            Ok(x) => gemm_part_spec(p, rhs@, out@, scratch) == Ok::<ProductModel, LaunchError>(x@),
            Err(e) => gemm_part_spec(p, rhs@, out@, scratch) == Err::<ProductModel, LaunchError>(
                e,
            ),
        },
{
    let n: usize = rhs[0];
    if !is_matrix_shape(rhs, n, p.cols) {
        return Err(LaunchError::InputShape);
    }
    if !is_matrix_shape(out, n, p.rows) {
        return Err(LaunchError::OutputShape);
    }
    match scratch {
        None => Err(LaunchError::NoScratch),
        Some(have) => {
            let call: KernelCall = dequant_weight_to_scratch(p, have)?;
            Ok(Product::Unpacked { call, dims: GemmDims { m: p.rows, n, k: p.cols } })
        },
    }
}

/// How the rows of a tensor of shape `rhs` are multiplied by a matrix, into a tensor of
/// shape `out`. One row is a product with a vector.
pub open spec fn gemm_spec(
    m: MatrixWeight,
    rhs: Seq<usize>,
    out: Seq<usize>,
    scratch: Option<usize>,
) -> Result<ProductModel, LaunchError> {
    let rows = m.dims()[0];
    let cols = m.dims()[1];
    if rhs.len() != 2 {
        Err(LaunchError::Rank { rank: rhs.len() as usize })
    } else if cols != rhs[1] {
        Err(LaunchError::InputShape)
    } else if out != seq![rhs[0], rows] {
        Err(LaunchError::OutputShape)
    } else if rhs[0] == 1 {
        gemv_spec(m, seq![cols], seq![rows])
    } else if one_half(m) {
        match gemm_dims_check(GemmDims { m: rows, n: rhs[0], k: cols }) {
            Err(e) => Err(e),
            Ok(dims) => Ok(ProductModel::Library { dims, byte_offset: 0 }),
        }
    } else if m.stack().len() != 1 {
        Err(LaunchError::RowConcatProduct)
    } else {
        gemm_part_spec(part_spec(m.stack()[0]), rhs, out, scratch)
    }
}

/// How the rows of a tensor are multiplied by a matrix.
pub fn gemm_into(m: &MatrixWeight, rhs: &[usize], out: &[usize], scratch: Option<usize>) -> (r:
    Result<Product, LaunchError>)
    requires
        m.wf(),
        m.dims().len() == 2,
        matrix_elems(m.dims()) <= usize::MAX,
    ensures
        match r {
            Ok(x) => gemm_spec(*m, rhs@, out@, scratch) == Ok::<ProductModel, LaunchError>(x@),
            Err(e) => gemm_spec(*m, rhs@, out@, scratch) == Err::<ProductModel, LaunchError>(e),
        },
{
    if rhs.len() != 2 {
        return Err(LaunchError::Rank { rank: rhs.len() });
    }
    let rows: usize = m.rows();
    let cols: usize = m.cols();
    let n: usize = rhs[0];
    if cols != rhs[1] {
        return Err(LaunchError::InputShape);
    }
    if !is_matrix_shape(out, n, rows) {
        return Err(LaunchError::OutputShape);
    }
    if n == 1 {
        let vector: Vec<usize> = vec![cols];
        let flat: Vec<usize> = vec![rows];
        assert(vector@ =~= seq![cols]);
        assert(flat@ =~= seq![rows]);
        return gemv_into(m, vector.as_slice(), flat.as_slice());
    }
    if m.is_f16_single() {
        let dims: GemmDims = gemm_dims(rows, n, cols)?;
        return Ok(Product::Library { dims, byte_offset: 0 });
    }
    if m.parts().len() != 1 {
        return Err(LaunchError::RowConcatProduct);
    }
    gemm_quant_part(part_of(&m.parts()[0]), rhs, out, scratch)
}

/// How the rows of a tensor are multiplied by `out_features` rows of a matrix from
/// `row_offset` on. The library begins further down in the matrix; of quantized weights
/// the rows have to be all of one projection.
pub open spec fn gemm_slice_spec(
    m: MatrixWeight,
    row_offset: usize,
    out_features: usize,
    rhs: Seq<usize>,
    out: Seq<usize>,
    scratch: Option<usize>,
) -> Result<ProductModel, LaunchError> {
    let cols = m.dims()[1];
    if cols != rhs[1] {
        Err(LaunchError::InputShape)
    } else if out != seq![rhs[0], out_features] {
        Err(LaunchError::OutputShape)
    } else if one_half(m) {
        match gemm_dims_check(GemmDims { m: out_features, n: rhs[0], k: cols }) {
            Err(e) => Err(e),
            Ok(dims) => Ok(
                ProductModel::Library { dims, byte_offset: (row_offset * cols * 2) as usize },
            ),
        }
    } else {
        match m.slice(row_offset as int, out_features as int) {
            Err(error) => Err(LaunchError::Slice { error }),
            Ok(s) => if s.len() != 1 || s[0].0 != 0 {
                Err(LaunchError::PartialProjection)
            } else {
                gemm_part_spec(part_spec(m.stack()[s[0].1]), rhs, out, scratch)
            },
        }
    }
}

/// The elements of every part can be counted.
pub open spec fn countable(m: MatrixWeight) -> bool {
    forall|i: int|
        0 <= i < m.stack().len() ==> matrix_elems((#[trigger] m.stack()[i]).dims()) <= usize::MAX
}

/// How the rows of a tensor are multiplied by some rows of a matrix.
pub fn gemm_row_slice_into(
    m: &MatrixWeight,
    row_offset: usize,
    out_features: usize,
    rhs: &[usize],
    out: &[usize],
    scratch: Option<usize>,
) -> (r: Result<Product, LaunchError>)
    requires
        m.wf(),
        m.dims().len() == 2,
        countable(*m),
        rhs@.len() >= 2,
        row_offset + out_features <= usize::MAX,
        row_offset * m.dims()[1] * 2 <= usize::MAX,
    ensures
        match r {
            Ok(x) => gemm_slice_spec(*m, row_offset, out_features, rhs@, out@, scratch) == Ok::<
                ProductModel,
                LaunchError,
            >(x@),
            Err(e) => gemm_slice_spec(*m, row_offset, out_features, rhs@, out@, scratch) == Err::<
                ProductModel,
                LaunchError,
            >(e),
        },
{
    let cols: usize = m.cols();
    let n: usize = rhs[0];
    if cols != rhs[1] {
        return Err(LaunchError::InputShape);
    }
    if !is_matrix_shape(out, n, out_features) {
        return Err(LaunchError::OutputShape);
    }
    if m.is_f16_single() {
        let dims: GemmDims = gemm_dims(out_features, n, cols)?;
        proof {
            assert(row_offset * cols >= 0) by (nonlinear_arith);
        }
        return Ok(Product::Library { dims, byte_offset: row_offset * cols * 2 });
    }
    let parts: Vec<(usize, &Weight)> = match m.row_parts_for_slice(row_offset, out_features) {
        Ok(v) => v,
        Err(error) => {
            return Err(LaunchError::Slice { error });
        },
    };
    let ghost s = m.slice(row_offset as int, out_features as int)->Ok_0;
    if parts.len() != 1 || parts[0].0 != 0 {
        return Err(LaunchError::PartialProjection);
    }
    proof {
        crate::weights::law_slice_covers(
            m.stack(),
            m.stack().len() as int,
            row_offset as int,
            row_offset + out_features,
        );
        assert(0 <= s[0].1 < m.stack().len());
        assert(m.stack()[s[0].1].dims().len() == 2);
    }
    gemm_quant_part(part_of(parts[0].1), rhs, out, scratch)
}

/// How the rows of a tensor of shape `rhs` are multiplied by a half-precision tensor whose
/// shape begins with the rows and columns of a matrix, into a tensor of shape `out`.
pub open spec fn half_gemm_spec(matrix: Seq<usize>, rhs: Seq<usize>, out: Seq<usize>) -> Result<
    ProductModel,
    LaunchError,
> {
    if rhs.len() != 2 {
        Err(LaunchError::Rank { rank: rhs.len() as usize })
    } else if matrix[1] != rhs[1] {
        Err(LaunchError::InputShape)
    } else if out != seq![rhs[0], matrix[0]] {
        Err(LaunchError::OutputShape)
    } else {
        match gemm_dims_check(GemmDims { m: matrix[0], n: rhs[0], k: matrix[1] }) {
            Err(e) => Err(e),
            Ok(dims) => Ok(ProductModel::Library { dims, byte_offset: 0 }),
        }
    }
}

/// How the rows of a tensor are multiplied by a half-precision tensor.
pub fn half_gemm_into(matrix: &[usize], rhs: &[usize], out: &[usize]) -> (r: Result<
    Product,
    LaunchError,
>)
    requires
        matrix@.len() >= 2,
    ensures
        match r {
            Ok(x) => half_gemm_spec(matrix@, rhs@, out@) == Ok::<ProductModel, LaunchError>(x@),
            Err(e) => half_gemm_spec(matrix@, rhs@, out@) == Err::<ProductModel, LaunchError>(e),
        },
{
    if rhs.len() != 2 {
        return Err(LaunchError::Rank { rank: rhs.len() });
    }
    if matrix[1] != rhs[1] {
        return Err(LaunchError::InputShape);
    }
    if !is_matrix_shape(out, rhs[0], matrix[0]) {
        return Err(LaunchError::OutputShape);
    }
    let dims: GemmDims = gemm_dims(matrix[0], rhs[0], matrix[1])?;
    Ok(Product::Library { dims, byte_offset: 0 })
}

/// How the rows of a tensor are multiplied by `out_features` rows of a half-precision
/// tensor from `row_offset` on.
pub open spec fn half_slice_spec(
    matrix: Seq<usize>,
    row_offset: usize,
    out_features: usize,
    rhs: Seq<usize>,
    out: Seq<usize>,
) -> Result<ProductModel, LaunchError> {
    if matrix[1] != rhs[1] {
        Err(LaunchError::InputShape)
    } else if out != seq![rhs[0], out_features] {
        Err(LaunchError::OutputShape)
    } else {
        match gemm_dims_check(GemmDims { m: out_features, n: rhs[0], k: matrix[1] }) {
            Err(e) => Err(e),
            Ok(dims) => Ok(
                ProductModel::Library { dims, byte_offset: (row_offset * matrix[1] * 2) as usize },
            ),
        }
    }
}

/// How the rows of a tensor are multiplied by some rows of a half-precision tensor.
pub fn half_row_slice_into(
    matrix: &[usize],
    row_offset: usize,
    out_features: usize,
    rhs: &[usize],
    out: &[usize],
) -> (r: Result<Product, LaunchError>)
    requires
        matrix@.len() >= 2,
        rhs@.len() >= 2,
        row_offset * matrix@[1] * 2 <= usize::MAX,
    ensures
        match r {
            Ok(x) => half_slice_spec(matrix@, row_offset, out_features, rhs@, out@) == Ok::<
                ProductModel,
                LaunchError,
            >(x@),
            Err(e) => half_slice_spec(matrix@, row_offset, out_features, rhs@, out@) == Err::<
                ProductModel,
                LaunchError,
            >(e),
        },
{
    let cols: usize = matrix[1];
    if cols != rhs[1] {
        return Err(LaunchError::InputShape);
    }
    if !is_matrix_shape(out, rhs[0], out_features) {
        return Err(LaunchError::OutputShape);
    }
    let dims: GemmDims = gemm_dims(out_features, rhs[0], cols)?;
    proof {
        assert(row_offset * cols >= 0) by (nonlinear_arith);
    }
    Ok(Product::Library { dims, byte_offset: row_offset * cols * 2 })
}

/// A half-precision tensor is multiplied by as an unquantized weight of its shape is.
pub proof fn law_tensor_multiplies_as_weight(
    m: MatrixWeight,
    row_offset: usize,
    out_features: usize,
    rhs: Seq<usize>,
    out: Seq<usize>,
    scratch: Option<usize>,
)
    requires
        one_half(m),
    ensures
        gemv_spec(m, rhs, out) == half_gemv_spec(m.dims(), rhs, out),
        gemm_spec(m, rhs, out, scratch) == half_gemm_spec(m.dims(), rhs, out),
        gemm_slice_spec(m, row_offset, out_features, rhs, out, scratch) == half_slice_spec(
            m.dims(),
            row_offset,
            out_features,
            rhs,
            out,
        ),
{
}

/// Elements that an embedding kernel writes at once, by element type.
pub open spec fn embed_kernel(dtype: GgmlType) -> Option<(Kernel, usize)> {
    match dtype {
        GgmlType::Q8_0 => Some((Kernel::EmbedGatherQ8_0, 32)),
        GgmlType::Q4K => Some((Kernel::EmbedGatherQ4K, 32)),
        GgmlType::Q5K => Some((Kernel::EmbedGatherQ5K, 32)),
        GgmlType::Q6K => Some((Kernel::EmbedGatherQ6K, 16)),
        _ => None,
    }
}

/// The kernel that embeds tokens. `checked` is the shape of the output and the count of
/// tokens, where they are still to be held against the weight.
pub open spec fn embed_spec(
    m: MatrixWeight,
    hidden: usize,
    embed_block: usize,
    checked: Option<(Seq<usize>, usize)>,
) -> Result<CallModel, LaunchError> {
    if one_half(m) {
        Ok(plain_call(Kernel::EmbeddingBatch, seq![1, embed_block], seq![hidden, embed_block]))
    } else if m.stack().len() != 1 {
        Err(LaunchError::RowConcatEmbedding)
    } else {
        let p = part_spec(m.stack()[0]);
        if checked is Some && p.cols != hidden {
            Err(LaunchError::InputShape)
        } else if (checked matches Some((out, seqlen)) && out != seq![seqlen, hidden]) {
            Err(LaunchError::OutputShape)
        } else {
            match embed_kernel(p.dtype) {
                None => Err(LaunchError::UnsupportedType),
                Some((kernel, tile)) => if p.native {
                    Ok(plain_call(kernel, seq![1, tile], seq![hidden]))
                } else {
                    Err(LaunchError::Layout)
                },
            }
        }
    }
}

/// The kernel that embeds the token of a step while the steps of one token are recorded.
pub fn decode_embedding(m: &MatrixWeight, hidden: usize, embed_block: usize) -> (r: Result<
    KernelCall,
    LaunchError,
>)
    requires
        m.wf(),
        m.dims().len() == 2,
    ensures
        match r {
            Ok(c) => embed_spec(*m, hidden, embed_block, None) == Ok::<CallModel, LaunchError>(c@),
            Err(e) => embed_spec(*m, hidden, embed_block, None) == Err::<CallModel, LaunchError>(
                e,
            ),
        },
{
    if m.is_f16_single() {
        let tile: Vec<usize> = vec![1, embed_block];
        let generics: Vec<usize> = vec![hidden, embed_block];
        assert(tile@ =~= seq![1, embed_block]);
        assert(generics@ =~= seq![hidden, embed_block]);
        return Ok(new_call(Kernel::EmbeddingBatch, tile, generics));
    }
    if m.parts().len() != 1 {
        return Err(LaunchError::RowConcatEmbedding);
    }
    let p: Part = part_of(&m.parts()[0]);
    let (kernel, width): (Kernel, usize) = match p.dtype {
        GgmlType::Q8_0 => (Kernel::EmbedGatherQ8_0, 32),
        GgmlType::Q4K => (Kernel::EmbedGatherQ4K, 32),
        GgmlType::Q5K => (Kernel::EmbedGatherQ5K, 32),
        GgmlType::Q6K => (Kernel::EmbedGatherQ6K, 16),
        _ => {
            return Err(LaunchError::UnsupportedType);
        },
    };
    if !p.native {
        return Err(LaunchError::Layout);
    }
    let tile: Vec<usize> = vec![1, width];
    let generics: Vec<usize> = vec![hidden];
    assert(tile@ =~= seq![1, width]);
    assert(generics@ =~= seq![hidden]);
    Ok(new_call(kernel, tile, generics))
}

/// The kernel that embeds `seqlen` tokens into a tensor of shape `out`: there has to be a
/// token, and the output has to hold a row for each.
pub fn embedding_batch_into(
    m: &MatrixWeight,
    hidden: usize,
    embed_block: usize,
    seqlen: usize,
    out: &[usize],
) -> (r: Result<KernelCall, LaunchError>)
    requires
        m.wf(),
        m.dims().len() == 2,
    ensures
        ({
            let want = if seqlen == 0 {
                Err(LaunchError::Empty)
            } else if out@ != seq![seqlen, hidden] {
                Err(LaunchError::OutputShape)
            } else {
                embed_spec(*m, hidden, embed_block, Some((out@, seqlen)))
            };
            match r {
                Ok(c) => want == Ok::<CallModel, LaunchError>(c@),
                Err(e) => want == Err::<CallModel, LaunchError>(e),
            }
        }),
{
    if seqlen == 0 {
        return Err(LaunchError::Empty);
    }
    if !is_matrix_shape(out, seqlen, hidden) {
        return Err(LaunchError::OutputShape);
    }
    if !m.is_f16_single() && m.parts().len() == 1 {
        let p: Part = part_of(&m.parts()[0]);
        if p.cols != hidden {
            return Err(LaunchError::InputShape);
        }
    }
    decode_embedding(m, hidden, embed_block)
}

/// The kernel that embeds tokens that are on the device, by the shape of their tensor.
pub fn embedding_batch_from_device_ids_into(
    m: &MatrixWeight,
    hidden: usize,
    embed_block: usize,
    ids: &[usize],
    out: &[usize],
) -> (r: Result<KernelCall, LaunchError>)
    requires
        m.wf(),
        m.dims().len() == 2,
    ensures
        ({
            let want = if ids@.len() != 1 {
                Err(LaunchError::Rank { rank: ids@.len() as usize })
            } else if ids@[0] == 0 {
                Err(LaunchError::Empty)
            } else if out@ != seq![ids@[0], hidden] {
                Err(LaunchError::OutputShape)
            } else {
                embed_spec(*m, hidden, embed_block, Some((out@, ids@[0])))
            };
            match r {
                Ok(c) => want == Ok::<CallModel, LaunchError>(c@),
                Err(e) => want == Err::<CallModel, LaunchError>(e),
            }
        }),
{
    if ids.len() != 1 {
        return Err(LaunchError::Rank { rank: ids.len() });
    }
    embedding_batch_into(m, hidden, embed_block, ids[0], out)
}

} // verus!
