//! What an operation of a step launches.
use crate::attention::{
    attend_seq, attend_spec, attn_sizes, fused_prefill_spec, kv_cache_update, kv_update_spec,
    qk_norm_rope_kv_prefill, rope_seq_into, rope_spec, AttnDims, AttnKnobs, PositionInput,
};
use crate::caches::LayerState;
use crate::forward::LayerWeights;
use crate::gemm::{
    countable, embed_spec, embedding_batch_from_device_ids_into, embedding_batch_into, gemm_into,
    gemm_row_slice_into, gemm_slice_spec, gemm_spec, half_gemm_into, half_gemm_spec,
    half_row_slice_into, half_slice_spec,
};
use crate::graph::{
    spec_keys, GraphOp, Op, OpModel, SpecKey, TensorRef, TensorSpec, ValueId, WeightRef,
};
use crate::kernel::{CallModel, Kernel, KernelCall, LaunchError};
use crate::pointwise::{
    add_2d_into, add_norm_spec, add_rms_norm_into, gather_row_into, norm_rows, norm_spec,
    pair_spec, rms_norm_into, row_spec, silu_mul_2d_into, slice_cols_into, slice_fits, slice_spec,
    DeviceCopy, NormModel, NormPlan,
};
use crate::products::{
    gemv_into, gemv_spec, half_gemv_into, half_gemv_spec, Product, ProductModel,
};
use crate::quant_scratch::copy_dims;
use crate::weights::{lengths, matrix_elems, tensor_shape_usize, DeviceBuffer, MatrixWeight};
use vstd::prelude::*;

verus! {

/// The tokens of a step: their count where the host has them, or the shape of their tensor.
#[derive(Clone, Copy, Debug)]
pub enum TokenInput<'a> {
    Host(usize),
    Device(&'a [usize]),
}

/// What operations have to know beside their values.
#[derive(Clone, Copy, Debug)]
pub struct StepEnv<'a> {
    pub dims: AttnDims,
    pub hidden: usize,
    pub tokens: TokenInput<'a>,
    pub position: PositionInput<'a>,
    pub embed: &'a MatrixWeight,
    pub head: &'a MatrixWeight,
    pub norm: &'a DeviceBuffer,
    pub layers: &'a [LayerWeights],
    pub caches: &'a [LayerState],
    pub embed_block: usize,
    pub add_rms_block: usize,
    pub rms_block: usize,
    pub cache_tokens: usize,
    pub cache_chunk: usize,
    pub knobs: AttnKnobs,
    pub sm100: bool,
    /// Elements of the buffer that quantized weights are unpacked into.
    pub scratch: Option<usize>,
}

/// What an operation launches.
#[derive(Debug)]
pub enum OpPlan {
    Call { call: KernelCall },
    Multiply { product: Product },
    Norm { norm: NormPlan },
    Copy { copies: Vec<DeviceCopy> },
    /// The value gets another shape; nothing is launched.
    Rename,
}

/// What a plan is.
#[verifier::ext_equal]
pub enum PlanModel {
    Call { call: CallModel },
    Multiply { product: ProductModel },
    Norm { norm: NormModel },
    Copy { copies: Seq<DeviceCopy> },
    Rename,
}

impl View for OpPlan {
    type V = PlanModel;

    open spec fn view(&self) -> PlanModel {
        match *self {
            OpPlan::Call { call } => PlanModel::Call { call: call@ },
            OpPlan::Multiply { product } => PlanModel::Multiply { product: product@ },
            OpPlan::Norm { norm } => PlanModel::Norm { norm: norm@ },
            OpPlan::Copy { copies } => PlanModel::Copy { copies: copies@ },
            OpPlan::Rename => PlanModel::Rename,
        }
    }
}

/// Why an operation launches nothing.
#[derive(Clone, Copy, Debug, PartialEq, Eq, Structural)]
pub enum OpError {
    /// A projection is read as a plain tensor.
    NotATensor,
    /// A norm is read as a matrix.
    NotAMatrix,
    /// A weight has a negative dimension.
    NegativeDim,
    /// A value is made of a weight by reshaping.
    ReshapeWeight,
    /// The shapes do not fit, or no kernel does this.
    Launch { error: LaunchError },
}

/// The buffer of a weight that is no projection.
pub open spec fn plain_weight(env: StepEnv, w: WeightRef) -> Option<DeviceBuffer> {
    match w {
        WeightRef::LmHead => None,
        WeightRef::Norm => Some(*env.norm),
        WeightRef::Layer { layer_idx, slot } => env.layers@[layer_idx as int].norm_at(slot),
    }
}

/// The matrix of a weight that is a projection.
pub open spec fn matrix_weight(env: StepEnv, w: WeightRef) -> Option<MatrixWeight> {
    match w {
        WeightRef::LmHead => Some(*env.head),
        WeightRef::Norm => None,
        WeightRef::Layer { layer_idx, slot } => env.layers@[layer_idx as int].matrix_at(slot),
    }
}

/// The shape of a tensor that an operation reads.
pub open spec fn read_shape(env: StepEnv, keys: Seq<SpecKey>, r: TensorRef) -> Result<
    Seq<usize>,
    OpError,
> {
    match r {
        TensorRef::Value(v) => Ok(keys[v.0 as int].shape),
        TensorRef::Weight(w) => match plain_weight(env, w) {
            None => Err(OpError::NotATensor),
            Some(b) => match lengths(b.shape@) {
                None => Err(OpError::NegativeDim),
                Some(s) => Ok(s),
            },
        },
    }
}

/// What an operation multiplies by: a projection, or a value as a half-precision matrix.
#[verifier::ext_equal]
pub enum MatrixModel {
    Weight { matrix: MatrixWeight },
    Value { shape: Seq<usize> },
}

/// What an operation multiplies by.
pub open spec fn read_matrix(env: StepEnv, keys: Seq<SpecKey>, r: TensorRef) -> Result<
    MatrixModel,
    OpError,
> {
    match r {
        TensorRef::Value(v) => Ok(MatrixModel::Value { shape: keys[v.0 as int].shape }),
        TensorRef::Weight(w) => match matrix_weight(env, w) {
            None => Err(OpError::NotAMatrix),
            Some(matrix) => Ok(MatrixModel::Weight { matrix }),
        },
    }
}

/// The shape of what an operation multiplies by.
pub open spec fn matrix_dims(m: MatrixModel) -> Seq<usize> {
    match m {
        MatrixModel::Weight { matrix } => matrix.dims(),
        MatrixModel::Value { shape } => shape,
    }
}

/// The product of several rows.
pub open spec fn rows_product(
    m: MatrixModel,
    rhs: Seq<usize>,
    out: Seq<usize>,
    scratch: Option<usize>,
) -> Result<ProductModel, LaunchError> {
    match m {
        MatrixModel::Weight { matrix } => gemm_spec(matrix, rhs, out, scratch),
        MatrixModel::Value { shape } => half_gemm_spec(shape, rhs, out),
    }
}

/// The product of a vector.
pub open spec fn vector_product(m: MatrixModel, vector: Seq<usize>, out: Seq<usize>) -> Result<
    ProductModel,
    LaunchError,
> {
    match m {
        MatrixModel::Weight { matrix } => gemv_spec(matrix, vector, out),
        MatrixModel::Value { shape } => half_gemv_spec(shape, vector, out),
    }
}

/// The product of several rows with some rows of a matrix.
pub open spec fn slice_product(
    m: MatrixModel,
    row_offset: usize,
    out_features: usize,
    rhs: Seq<usize>,
    out: Seq<usize>,
    scratch: Option<usize>,
) -> Result<ProductModel, LaunchError> {
    match m {
        MatrixModel::Weight { matrix } => gemm_slice_spec(
            matrix,
            row_offset,
            out_features,
            rhs,
            out,
            scratch,
        ),
        MatrixModel::Value { shape } => half_slice_spec(
            shape,
            row_offset,
            out_features,
            rhs,
            out,
        ),
    }
}

/// The shape of a value.
pub open spec fn out_shape(keys: Seq<SpecKey>, v: ValueId) -> Seq<usize> {
    keys[v.0 as int].shape
}

/// A kernel or what is in its way.
pub open spec fn called(r: Result<CallModel, LaunchError>) -> Result<PlanModel, OpError> {
    match r {
        Ok(call) => Ok(PlanModel::Call { call }),
        Err(error) => Err(OpError::Launch { error }),
    }
}

/// A product or what is in its way.
pub open spec fn multiplied(r: Result<ProductModel, LaunchError>) -> Result<PlanModel, OpError> {
    match r {
        Ok(product) => Ok(PlanModel::Multiply { product }),
        Err(error) => Err(OpError::Launch { error }),
    }
}

/// A norm or what is in its way.
pub open spec fn normed(r: Result<NormModel, LaunchError>) -> Result<PlanModel, OpError> {
    match r {
        Ok(norm) => Ok(PlanModel::Norm { norm }),
        Err(error) => Err(OpError::Launch { error }),
    }
}

/// The kernel that embeds the tokens of a step.
pub open spec fn token_spec(env: StepEnv, out: Seq<usize>) -> Result<CallModel, LaunchError> {
    match env.tokens {
        TokenInput::Host(n) => if n == 0 {
            Err(LaunchError::Empty)
        } else if out != seq![n, env.hidden] {
            Err(LaunchError::OutputShape)
        } else {
            embed_spec(*env.embed, env.hidden, env.embed_block, Some((out, n)))
        },
        TokenInput::Device(ids) => if ids@.len() != 1 {
            Err(LaunchError::Rank { rank: ids@.len() as usize })
        } else if ids@[0] == 0 {
            Err(LaunchError::Empty)
        } else if out != seq![ids@[0], env.hidden] {
            Err(LaunchError::OutputShape)
        } else {
            embed_spec(*env.embed, env.hidden, env.embed_block, Some((out, ids@[0])))
        },
    }
}

/// Whether a layer has its two caches.
pub open spec fn has_caches(env: StepEnv, layer: usize) -> bool {
    env.caches@[layer as int].k_cache is Some && env.caches@[layer as int].v_cache is Some
}

/// The shape of a cache, where there is one.
pub open spec fn cache_dims(d: AttnDims, cache: Option<usize>) -> Option<Seq<usize>> {
    match cache {
        Some(_) => Some(seq![d.kv_heads, d.max_seq_len, d.head_dim]),
        None => None,
    }
}

/// What an operation launches on values of these shapes.
pub open spec fn op_plan(env: StepEnv, keys: Seq<SpecKey>, op: OpModel) -> Result<
    PlanModel,
    OpError,
> {
    match op {
        Op::EmbeddingBatch { out } => called(token_spec(env, out_shape(keys, out))),
        Op::MatMul { matrix, rhs, out } => match read_matrix(env, keys, matrix) {
            Err(e) => Err(e),
            Ok(m) => match read_shape(env, keys, rhs) {
                Err(e) => Err(e),
                Ok(s) => multiplied(rows_product(m, s, out_shape(keys, out), env.scratch)),
            },
        },
        Op::MatVec { matrix, vector, out } => match read_matrix(env, keys, matrix) {
            Err(e) => Err(e),
            Ok(m) => match read_shape(env, keys, vector) {
                Err(e) => Err(e),
                Ok(s) => multiplied(vector_product(m, s, out_shape(keys, out))),
            },
        },
        Op::Add { lhs, rhs, out } => match read_shape(env, keys, lhs) {
            Err(e) => Err(e),
            Ok(a) => match read_shape(env, keys, rhs) {
                Err(e) => Err(e),
                Ok(b) => called(pair_spec(Kernel::Add2d, a, b, out_shape(keys, out))),
            },
        },
        Op::SiluMul { gate, up, out } => match read_shape(env, keys, gate) {
            Err(e) => Err(e),
            Ok(a) => match read_shape(env, keys, up) {
                Err(e) => Err(e),
                Ok(b) => called(pair_spec(Kernel::SiluMul2d, a, b, out_shape(keys, out))),
            },
        },
        Op::RmsNorm { x, weight, n, out } => match read_shape(env, keys, x) {
            Err(e) => Err(e),
            Ok(a) => match read_shape(env, keys, weight) {
                Err(e) => Err(e),
                Ok(_) => normed(norm_spec(a, n, out_shape(keys, out), env.rms_block)),
            },
        },
        Op::Reshape { input, .. } => match input {
            TensorRef::Value(_) => Ok(PlanModel::Rename),
            TensorRef::Weight(_) => Err(OpError::ReshapeWeight),
        },
        Op::Rope { x, out } => match read_shape(env, keys, x) {
            Err(e) => Err(e),
            Ok(a) => called(rope_spec(a, env.position, out_shape(keys, out), env.dims.head_dim)),
        },
        Op::KvCacheUpdate { layer_idx, new_k, new_v } => match read_shape(env, keys, new_k) {
            Err(e) => Err(e),
            Ok(k) => match read_shape(env, keys, new_v) {
                Err(e) => Err(e),
                Ok(v) => called(
                    kv_update_spec(
                        k,
                        v,
                        env.position,
                        env.dims,
                        has_caches(env, layer_idx),
                        env.cache_tokens,
                        env.cache_chunk,
                    ),
                ),
            },
        },
        Op::QkNormRopeKvPrefill { layer_idx, q, k, v, out } => match read_shape(env, keys, q) {
            Err(e) => Err(e),
            Ok(a) => match read_shape(env, keys, k) {
                Err(e) => Err(e),
                Ok(b) => match read_shape(env, keys, v) {
                    Err(e) => Err(e),
                    Ok(c) => called(
                        fused_prefill_spec(
                            a,
                            b,
                            c,
                            out_shape(keys, out),
                            env.position,
                            env.dims,
                            cache_dims(env.dims, env.caches@[layer_idx as int].k_cache),
                            cache_dims(env.dims, env.caches@[layer_idx as int].v_cache),
                        ),
                    ),
                },
            },
        },
        Op::Attention { layer_idx, q, out } => match read_shape(env, keys, q) {
            Err(e) => Err(e),
            Ok(a) => called(
                attend_spec(
                    a,
                    env.position,
                    out_shape(keys, out),
                    env.dims,
                    has_caches(env, layer_idx),
                    env.knobs,
                    env.sm100,
                ),
            ),
        },
        Op::GatherRow { src, row_idx, out } => match read_shape(env, keys, src) {
            Err(e) => Err(e),
            Ok(a) => called(row_spec(a, row_idx, out_shape(keys, out))),
        },
        Op::SliceCols { input, col_offset, out_cols, .. } => match read_shape(env, keys, input) {
            Err(e) => Err(e),
            Ok(a) => match slice_spec(a, col_offset, out_cols) {
                Ok(copies) => Ok(PlanModel::Copy { copies }),
                Err(error) => Err(OpError::Launch { error }),
            },
        },
        Op::MatMulSlice { matrix, row_offset, out_features, rhs, out } => match read_matrix(
            env,
            keys,
            matrix,
        ) {
            Err(e) => Err(e),
            Ok(m) => match read_shape(env, keys, rhs) {
                Err(e) => Err(e),
                Ok(s) => multiplied(
                    slice_product(
                        m,
                        row_offset,
                        out_features,
                        s,
                        out_shape(keys, out),
                        env.scratch,
                    ),
                ),
            },
        },
        Op::AddRmsNorm { residual, x, weight, n, out, residual_out } => match read_shape(
            env,
            keys,
            residual,
        ) {
            Err(e) => Err(e),
            Ok(a) => match read_shape(env, keys, x) {
                Err(e) => Err(e),
                Ok(b) => match read_shape(env, keys, weight) {
                    Err(e) => Err(e),
                    Ok(_) => normed(
                        add_norm_spec(
                            a,
                            b,
                            n,
                            out_shape(keys, out),
                            out_shape(keys, residual_out),
                            env.add_rms_block,
                        ),
                    ),
                },
            },
        },
    }
}

/// A matrix of two dimensions whose elements can be counted.
pub open spec fn ready_matrix(m: MatrixWeight) -> bool {
    &&& m.wf()
    &&& m.dims().len() == 2
    &&& matrix_elems(m.dims()) <= usize::MAX
    &&& countable(m)
}

/// The matrices can be multiplied by, every layer has a place for its caches, and the
/// block of norms is not empty.
pub open spec fn env_ready(env: StepEnv) -> bool {
    &&& ready_matrix(*env.embed)
    &&& ready_matrix(*env.head)
    &&& forall|l: int| #![trigger env.layers@[l]]
        0 <= l < env.layers@.len() ==> ready_matrix(env.layers@[l].qkv_proj) && ready_matrix(
            env.layers@[l].o_proj,
        ) && ready_matrix(env.layers@[l].gate_up_proj) && ready_matrix(env.layers@[l].down_proj)
    &&& env.caches@.len() == env.layers@.len()
    &&& env.rms_block > 0
    &&& env.dims.heads + env.dims.kv_heads <= usize::MAX
}

/// What is read is there.
pub open spec fn ref_ready(env: StepEnv, keys: Seq<SpecKey>, r: TensorRef) -> bool {
    match r {
        TensorRef::Value(v) => v.0 < keys.len(),
        TensorRef::Weight(WeightRef::Layer { layer_idx, .. }) => layer_idx < env.layers@.len(),
        TensorRef::Weight(_) => true,
    }
}

/// What is multiplied by is there; a value has to have rows and columns.
pub open spec fn matrix_ready(env: StepEnv, keys: Seq<SpecKey>, r: TensorRef) -> bool {
    &&& ref_ready(env, keys, r)
    &&& r matches TensorRef::Value(v) ==> keys[v.0 as int].shape.len() >= 2
}

/// The first position, where the host knows it.
pub open spec fn host_start(position: PositionInput) -> int {
    match position {
        PositionInput::Host(start) => start as int,
        PositionInput::Device(_) => 0,
    }
}

/// The values of an operation are there, and its sizes can be counted.
pub open spec fn op_ready(env: StepEnv, keys: Seq<SpecKey>, op: OpModel) -> bool {
    match op {
        Op::EmbeddingBatch { out } => out.0 < keys.len(),
        Op::MatMul { matrix, rhs, out } => {
            &&& matrix_ready(env, keys, matrix)
            &&& ref_ready(env, keys, rhs)
            &&& out.0 < keys.len()
        },
        Op::MatVec { matrix, vector, out } => {
            &&& matrix_ready(env, keys, matrix)
            &&& ref_ready(env, keys, vector)
            &&& out.0 < keys.len()
        },
        Op::Add { lhs, rhs, out } => {
            &&& ref_ready(env, keys, lhs)
            &&& ref_ready(env, keys, rhs)
            &&& out.0 < keys.len()
        },
        Op::SiluMul { gate, up, out } => {
            &&& ref_ready(env, keys, gate)
            &&& ref_ready(env, keys, up)
            &&& out.0 < keys.len()
        },
        Op::RmsNorm { x, weight, n, out } => {
            &&& ref_ready(env, keys, x)
            &&& ref_ready(env, keys, weight)
            &&& out.0 < keys.len()
            &&& read_shape(env, keys, x) matches Ok(a) ==> (norm_rows(a, n) matches Ok(rows) ==> rows
                * n <= usize::MAX)
        },
        Op::Reshape { .. } => true,
        Op::Rope { x, out } => ref_ready(env, keys, x) && out.0 < keys.len(),
        Op::KvCacheUpdate { layer_idx, new_k, new_v } => {
            &&& ref_ready(env, keys, new_k)
            &&& ref_ready(env, keys, new_v)
            &&& layer_idx < env.caches@.len()
            &&& read_shape(env, keys, new_k) matches Ok(a) ==> (a.len() == 3 ==> host_start(
                env.position,
            ) + a[0] <= usize::MAX)
        },
        Op::QkNormRopeKvPrefill { layer_idx, q, k, v, out } => {
            &&& ref_ready(env, keys, q)
            &&& ref_ready(env, keys, k)
            &&& ref_ready(env, keys, v)
            &&& out.0 < keys.len()
            &&& layer_idx < env.caches@.len()
            &&& read_shape(env, keys, q) matches Ok(a) ==> (a.len() > 0 ==> host_start(
                env.position,
            ) + a[0] <= usize::MAX)
        },
        Op::Attention { layer_idx, q, out } => {
            &&& ref_ready(env, keys, q)
            &&& out.0 < keys.len()
            &&& layer_idx < env.caches@.len()
            &&& read_shape(env, keys, q) matches Ok(a) ==> (a.len() == 3 ==> attn_sizes(
                a[0],
                host_start(env.position),
                env.dims,
                env.knobs,
            ))
        },
        Op::GatherRow { src, out, .. } => ref_ready(env, keys, src) && out.0 < keys.len(),
        Op::SliceCols { input, col_offset, out_cols, .. } => {
            &&& ref_ready(env, keys, input)
            &&& read_shape(env, keys, input) matches Ok(a) ==> slice_fits(a, col_offset, out_cols)
        },
        Op::MatMulSlice { matrix, row_offset, out_features, rhs, out } => {
            &&& matrix_ready(env, keys, matrix)
            &&& ref_ready(env, keys, rhs)
            &&& out.0 < keys.len()
            &&& read_shape(env, keys, rhs) matches Ok(a) ==> a.len() >= 2
            &&& row_offset + out_features <= usize::MAX
            &&& read_matrix(env, keys, matrix) matches Ok(m) ==> row_offset * matrix_dims(m)[1] * 2
                <= usize::MAX
        },
        Op::AddRmsNorm { residual, x, weight, n, out, residual_out } => {
            &&& ref_ready(env, keys, residual)
            &&& ref_ready(env, keys, x)
            &&& ref_ready(env, keys, weight)
            &&& out.0 < keys.len()
            &&& residual_out.0 < keys.len()
            &&& read_shape(env, keys, residual) matches Ok(a) ==> (norm_rows(a, n) matches Ok(rows)
                ==> rows * n <= usize::MAX)
        },
    }
}

fn shape_read(env: &StepEnv, specs: &[TensorSpec], r: TensorRef) -> (s: Result<Vec<usize>, OpError>)
    requires
        ref_ready(*env, spec_keys(specs@), r),
    ensures
        match s {
            Ok(v) => read_shape(*env, spec_keys(specs@), r) == Ok::<Seq<usize>, OpError>(v@),
            Err(e) => read_shape(*env, spec_keys(specs@), r) == Err::<Seq<usize>, OpError>(e),
        },
{
    let buffer: &DeviceBuffer = match r {
        TensorRef::Value(v) => {
            return Ok(copy_dims(specs[v.0].shape.as_slice()));
        },
        TensorRef::Weight(WeightRef::LmHead) => {
            return Err(OpError::NotATensor);
        },
        TensorRef::Weight(WeightRef::Norm) => env.norm,
        TensorRef::Weight(WeightRef::Layer { layer_idx, slot }) => match env.layers[layer_idx].norm(
            slot,
        ) {
            Some(b) => b,
            None => {
                return Err(OpError::NotATensor);
            },
        },
    };
    match tensor_shape_usize(buffer.shape.as_slice()) {
        Ok(v) => Ok(v),
        Err(_) => Err(OpError::NegativeDim),
    }
}

/// What an operation multiplies by.
enum Operand<'a> {
    Weight { matrix: &'a MatrixWeight },
    Value { shape: Vec<usize> },
}

impl<'a> Operand<'a> {
    spec fn model(&self) -> MatrixModel {
        match *self {
            Operand::Weight { matrix } => MatrixModel::Weight { matrix: *matrix },
            Operand::Value { shape } => MatrixModel::Value { shape: shape@ },
        }
    }

    spec fn wf(&self) -> bool {
        match *self {
            Operand::Weight { matrix } => ready_matrix(*matrix),
            Operand::Value { shape } => shape@.len() >= 2,
        }
    }
}

fn matrix_read<'a>(env: &StepEnv<'a>, specs: &[TensorSpec], r: TensorRef) -> (m: Result<
    Operand<'a>,
    OpError,
>)
    requires
        env_ready(*env),
        matrix_ready(*env, spec_keys(specs@), r),
    ensures
        match m {
            Ok(x) => read_matrix(*env, spec_keys(specs@), r) == Ok::<MatrixModel, OpError>(
                x.model(),
            ) && x.wf(),
            Err(e) => read_matrix(*env, spec_keys(specs@), r) == Err::<MatrixModel, OpError>(e),
        },
{
    match r {
        TensorRef::Value(v) => Ok(Operand::Value { shape: copy_dims(specs[v.0].shape.as_slice()) }),
        TensorRef::Weight(WeightRef::LmHead) => Ok(Operand::Weight { matrix: env.head }),
        TensorRef::Weight(WeightRef::Layer { layer_idx, slot }) => {
            let layer: &'a LayerWeights = &env.layers[layer_idx];
            assert(env.layers@[layer_idx as int] == *layer);
            match layer.matrix(slot) {
                Some(matrix) => Ok(Operand::Weight { matrix }),
                None => Err(OpError::NotAMatrix),
            }
        },
        TensorRef::Weight(WeightRef::Norm) => Err(OpError::NotAMatrix),
    }
}

fn as_call(r: Result<KernelCall, LaunchError>) -> (p: Result<OpPlan, OpError>)
    ensures
        match (r, p) {
            (Ok(c), Ok(x)) => x@ == (PlanModel::Call { call: c@ }),
            (Err(error), Err(e)) => e == (OpError::Launch { error }),
            _ => false,
        },
{
    match r {
        Ok(call) => Ok(OpPlan::Call { call }),
        Err(error) => Err(OpError::Launch { error }),
    }
}

fn as_product(r: Result<Product, LaunchError>) -> (p: Result<OpPlan, OpError>)
    ensures
        match (r, p) {
            (Ok(c), Ok(x)) => x@ == (PlanModel::Multiply { product: c@ }),
            (Err(error), Err(e)) => e == (OpError::Launch { error }),
            _ => false,
        },
{
    match r {
        Ok(product) => Ok(OpPlan::Multiply { product }),
        Err(error) => Err(OpError::Launch { error }),
    }
}

fn as_norm(r: Result<NormPlan, LaunchError>) -> (p: Result<OpPlan, OpError>)
    ensures
        match (r, p) {
            (Ok(c), Ok(x)) => x@ == (PlanModel::Norm { norm: c@ }),
            (Err(error), Err(e)) => e == (OpError::Launch { error }),
            _ => false,
        },
{
    match r {
        Ok(norm) => Ok(OpPlan::Norm { norm }),
        Err(error) => Err(OpError::Launch { error }),
    }
}

/// What an operation launches on values of these shapes.
pub fn plan_op(env: &StepEnv, specs: &[TensorSpec], op: &GraphOp) -> (r: Result<OpPlan, OpError>)
    requires
        env_ready(*env),
        op_ready(*env, spec_keys(specs@), op@),
    ensures
        match r {
            Ok(p) => op_plan(*env, spec_keys(specs@), op@) == Ok::<PlanModel, OpError>(p@),
            Err(e) => op_plan(*env, spec_keys(specs@), op@) == Err::<PlanModel, OpError>(e),
        },
{
    match op {
        Op::EmbeddingBatch { out } => {
            let shape: &[usize] = specs[out.0].shape.as_slice();
            match env.tokens {
                TokenInput::Host(n) => as_call(
                    embedding_batch_into(env.embed, env.hidden, env.embed_block, n, shape),
                ),
                TokenInput::Device(ids) => as_call(
                    embedding_batch_from_device_ids_into(
                        env.embed,
                        env.hidden,
                        env.embed_block,
                        ids,
                        shape,
                    ),
                ),
            }
        },
        Op::MatMul { matrix, rhs, out } => {
            let m: Operand = matrix_read(env, specs, *matrix)?;
            let s: Vec<usize> = shape_read(env, specs, *rhs)?;
            let o: &[usize] = specs[out.0].shape.as_slice();
            as_product(
                match m {
                    Operand::Weight { matrix } => gemm_into(matrix, s.as_slice(), o, env.scratch),
                    Operand::Value { shape } => half_gemm_into(shape.as_slice(), s.as_slice(), o),
                },
            )
        },
        Op::MatVec { matrix, vector, out } => {
            let m: Operand = matrix_read(env, specs, *matrix)?;
            let s: Vec<usize> = shape_read(env, specs, *vector)?;
            let o: &[usize] = specs[out.0].shape.as_slice();
            as_product(
                match m {
                    Operand::Weight { matrix } => gemv_into(matrix, s.as_slice(), o),
                    Operand::Value { shape } => half_gemv_into(shape.as_slice(), s.as_slice(), o),
                },
            )
        },
        Op::Add { lhs, rhs, out } => {
            let a: Vec<usize> = shape_read(env, specs, *lhs)?;
            let b: Vec<usize> = shape_read(env, specs, *rhs)?;
            as_call(add_2d_into(a.as_slice(), b.as_slice(), specs[out.0].shape.as_slice()))
        },
        Op::SiluMul { gate, up, out } => {
            let a: Vec<usize> = shape_read(env, specs, *gate)?;
            let b: Vec<usize> = shape_read(env, specs, *up)?;
            as_call(silu_mul_2d_into(a.as_slice(), b.as_slice(), specs[out.0].shape.as_slice()))
        },
        Op::RmsNorm { x, weight, n, out } => {
            let a: Vec<usize> = shape_read(env, specs, *x)?;
            shape_read(env, specs, *weight)?;
            as_norm(rms_norm_into(a.as_slice(), *n, specs[out.0].shape.as_slice(), env.rms_block))
        },
        Op::Reshape { input, .. } => match input {
            TensorRef::Value(_) => Ok(OpPlan::Rename),
            TensorRef::Weight(_) => Err(OpError::ReshapeWeight),
        },
        Op::Rope { x, out } => {
            let a: Vec<usize> = shape_read(env, specs, *x)?;
            as_call(
                rope_seq_into(
                    a.as_slice(),
                    env.position,
                    specs[out.0].shape.as_slice(),
                    env.dims.head_dim,
                ),
            )
        },
        Op::KvCacheUpdate { layer_idx, new_k, new_v } => {
            let k: Vec<usize> = shape_read(env, specs, *new_k)?;
            let v: Vec<usize> = shape_read(env, specs, *new_v)?;
            let state: LayerState = env.caches[*layer_idx];
            let cached: bool = state.k_cache.is_some() && state.v_cache.is_some();
            as_call(
                kv_cache_update(
                    k.as_slice(),
                    v.as_slice(),
                    env.position,
                    env.dims,
                    cached,
                    env.cache_tokens,
                    env.cache_chunk,
                ),
            )
        },
        Op::QkNormRopeKvPrefill { layer_idx, q, k, v, out } => {
            let a: Vec<usize> = shape_read(env, specs, *q)?;
            let b: Vec<usize> = shape_read(env, specs, *k)?;
            let c: Vec<usize> = shape_read(env, specs, *v)?;
            let state: LayerState = env.caches[*layer_idx];
            let cache: Vec<usize> = vec![env.dims.kv_heads, env.dims.max_seq_len, env.dims.head_dim];
            assert(cache@ =~= seq![env.dims.kv_heads, env.dims.max_seq_len, env.dims.head_dim]);
            let k_cache: Option<&[usize]> = match state.k_cache {
                Some(_) => Some(cache.as_slice()),
                None => None,
            };
            let v_cache: Option<&[usize]> = match state.v_cache {
                Some(_) => Some(cache.as_slice()),
                None => None,
            };
            as_call(
                qk_norm_rope_kv_prefill(
                    a.as_slice(),
                    b.as_slice(),
                    c.as_slice(),
                    specs[out.0].shape.as_slice(),
                    env.position,
                    env.dims,
                    k_cache,
                    v_cache,
                ),
            )
        },
        Op::Attention { layer_idx, q, out } => {
            let a: Vec<usize> = shape_read(env, specs, *q)?;
            let state: LayerState = env.caches[*layer_idx];
            let cached: bool = state.k_cache.is_some() && state.v_cache.is_some();
            as_call(
                attend_seq(
                    a.as_slice(),
                    env.position,
                    specs[out.0].shape.as_slice(),
                    env.dims,
                    cached,
                    env.knobs,
                    env.sm100,
                ),
            )
        },
        Op::GatherRow { src, row_idx, out } => {
            let a: Vec<usize> = shape_read(env, specs, *src)?;
            as_call(gather_row_into(a.as_slice(), *row_idx, specs[out.0].shape.as_slice()))
        },
        Op::SliceCols { input, col_offset, out_cols, .. } => {
            let a: Vec<usize> = shape_read(env, specs, *input)?;
            match slice_cols_into(a.as_slice(), *col_offset, *out_cols) {
                Ok(copies) => Ok(OpPlan::Copy { copies }),
                Err(error) => Err(OpError::Launch { error }),
            }
        },
        Op::MatMulSlice { matrix, row_offset, out_features, rhs, out } => {
            let m: Operand = matrix_read(env, specs, *matrix)?;
            let s: Vec<usize> = shape_read(env, specs, *rhs)?;
            let o: &[usize] = specs[out.0].shape.as_slice();
            as_product(
                match m {
                    Operand::Weight { matrix } => gemm_row_slice_into(
                        matrix,
                        *row_offset,
                        *out_features,
                        s.as_slice(),
                        o,
                        env.scratch,
                    ),
                    Operand::Value { shape } => half_row_slice_into(
                        shape.as_slice(),
                        *row_offset,
                        *out_features,
                        s.as_slice(),
                        o,
                    ),
                },
            )
        },
        Op::AddRmsNorm { residual, x, weight, n, out, residual_out } => {
            let a: Vec<usize> = shape_read(env, specs, *residual)?;
            let b: Vec<usize> = shape_read(env, specs, *x)?;
            shape_read(env, specs, *weight)?;
            as_norm(
                add_rms_norm_into(
                    a.as_slice(),
                    b.as_slice(),
                    *n,
                    specs[out.0].shape.as_slice(),
                    specs[residual_out.0].shape.as_slice(),
                    env.add_rms_block,
                ),
            )
        },
    }
}

} // verus!
