//! What is launched for an operation does that operation, with the numbers of its tensors.
use crate::attention::{lemma_packed, packed_heads, PositionInput, ATTN_BM_DECODE};
use crate::cublas::GemmDims;
use crate::dispatch::{
    env_ready, matrix_dims, matrix_ready, op_plan, op_ready, out_shape, read_matrix, read_shape,
    ready_matrix, rows_product, slice_product, MatrixModel, PlanModel, StepEnv,
};
use crate::graph::{Op, OpModel, SpecKey, TensorRef, WeightRef};
use crate::kernel::{CallModel, Kernel};
use crate::products::{
    decode_gemv_part, decode_gemv_spec, gemv_part, gemv_spec, part_spec, part_steps, Part,
    PartStepModel, ProductModel,
};
use crate::weights::{rows_before, slice_parts, MatrixWeight, Weight};
use vstd::prelude::*;

verus! {

/// The kernels that multiply a vector by a weight of this kind.
pub open spec fn multiplies(kernel: Kernel, w: Weight) -> bool {
    match w {
        Weight::F16 { .. } => false,
        Weight::Q8_0(_) => kernel is GemvQ8_0Soa,
        Weight::Q4K(_) => kernel is GemvQ4K || kernel is GemvQ4KInto || kernel is GemvQ4KSoa,
        Weight::Q5K(_) => kernel is GemvQ5K || kernel is GemvQ5KInto,
        Weight::Q6K(_) => kernel is GemvQ6K || kernel is GemvQ6KInto || kernel is GemvQ6KSoa,
    }
}

/// The kernels that unpack a weight of this kind.
pub open spec fn unpacks(kernel: Kernel, w: Weight) -> bool {
    match w {
        Weight::F16 { .. } => false,
        Weight::Q8_0(_) => kernel is DequantQ8_0,
        Weight::Q4K(_) => kernel is DequantQ4K || kernel is DequantQ4KSoa,
        Weight::Q5K(_) => kernel is DequantQ5K,
        Weight::Q6K(_) => kernel is DequantQ6K || kernel is DequantQ6KSoa,
    }
}

/// The kernels that take rows out of an embedding of this kind.
pub open spec fn embeds(kernel: Kernel, w: Weight) -> bool {
    match w {
        Weight::F16 { .. } => kernel is EmbeddingBatch,
        Weight::Q8_0(_) => kernel is EmbedGatherQ8_0,
        Weight::Q4K(_) => kernel is EmbedGatherQ4K,
        Weight::Q5K(_) => kernel is EmbedGatherQ5K,
        Weight::Q6K(_) => kernel is EmbedGatherQ6K,
    }
}

/// The rows that a vector product with a quantized weight computes: as many as blocks of the
/// launch times rows of a block, or as many as the kernel is told.
pub open spec fn computes_rows(c: CallModel, rows: int) -> bool {
    match c.grid {
        Some(g) => g.y == 1 && g.z == 1 && g.x * c.tile[0] <= rows < (g.x + 1) * c.tile[0],
        None => c.ints.len() == 1 && c.ints[0] == rows,
    }
}

/// Steps that multiply by the parts of a matrix, each with the kernel for it and into the rows
/// where the part stands.
pub open spec fn multiplies_parts(steps: Seq<PartStepModel>, parts: Seq<Weight>) -> bool {
    &&& steps.len() == parts.len()
    &&& forall|i: int|
        0 <= i < parts.len() ==> multiplies((#[trigger] steps[i]).call.kernel, parts[i])
            && steps[i].rows == parts[i].dims()[0] && steps[i].offset == rows_before(parts, i)
}

/// A product of `n` rows of `k` elements with `features` rows of a matrix from `from` on.
pub open spec fn is_product(
    p: ProductModel,
    m: MatrixModel,
    from: int,
    features: int,
    n: int,
    k: int,
) -> bool {
    let sizes = |d: GemmDims| d.m == features && d.n == n && d.k == k;
    match p {
        // Half-precision rows are two bytes an element.
        ProductModel::Library { dims, byte_offset } => {
            &&& sizes(dims)
            &&& byte_offset == 2 * (from * k)
            &&& m matches MatrixModel::Weight { matrix } ==> matrix.stack().len() == 1
                && matrix.stack()[0] is F16
        },
        ProductModel::Direct { call } => {
            &&& n == 1 && from == 0
            &&& m matches MatrixModel::Weight { matrix } && matrix.stack().len() == 1
                && multiplies(call.kernel, matrix.stack()[0]) && computes_rows(call, features)
        },
        ProductModel::Parts { steps } => {
            &&& n == 1 && from == 0
            &&& m matches MatrixModel::Weight { matrix } && multiplies_parts(steps, matrix.stack())
        },
        ProductModel::Unpacked { call, dims } => {
            &&& sizes(dims)
            &&& m matches MatrixModel::Weight { matrix } && exists|i: int|
                #![trigger matrix.stack()[i]]
                0 <= i < matrix.stack().len() && unpacks(call.kernel, matrix.stack()[i])
                    && matrix.stack()[i].dims()[0] == features && rows_before(matrix.stack(), i)
                    == from
        },
    }
}

/// A compile-time flag: 1 where it is so, 0 where not.
pub open spec fn says(flag: usize, so: bool) -> bool {
    so && flag == 1 || !so && flag == 0
}

/// The numbers that an attention kernel gets: how many query heads share keys, where the
/// queries begin, how many keys there are, the size of a head, and whether the keys fill their
/// last block.
pub open spec fn is_attention(
    c: CallModel,
    share: int,
    start: int,
    q_len: int,
    head_dim: int,
) -> bool {
    let full = (start + q_len) % (c.generics[1] as int) == 0;
    &&& c.generics[2] == head_dim
    &&& match c.kernel {
        Kernel::FmhaPrefillGqaLpt => {
            &&& c.ints.len() == 9
            &&& c.ints[0] == share
            &&& c.ints[1] == q_len
            &&& c.ints[2] == start + q_len
            &&& c.ints[3] == start
            &&& c.generics[4] == c.generics[0] * c.generics[3]
            &&& says(c.generics[6], full)
        },
        Kernel::FmhaPrefillGqa => {
            &&& c.ints.len() == 3
            &&& c.ints[0] == share
            &&& c.ints[1] == start + q_len
            &&& c.ints[2] == start
            &&& c.generics[4] == c.generics[0] * c.generics[3]
            &&& c.tile == seq![c.generics[0], c.generics[3], c.generics[2]]
            &&& says(c.generics[6], full)
        },
        Kernel::FmhaPrefillCausal => {
            &&& c.ints.len() == 3
            &&& c.ints[0] == share
            &&& c.ints[1] == start + q_len
            &&& c.ints[2] == start
            &&& c.tile == seq![c.generics[0], 1usize, c.generics[2]]
            &&& says(c.generics[4], full)
        },
        Kernel::FlashAttnCausalSeq => {
            &&& c.ints.len() == 3
            &&& c.ints[0] == share
            &&& c.ints[1] == start + q_len
            &&& c.ints[2] == start
            &&& c.tile == seq![c.generics[0], 1usize, c.generics[2]]
        },
        _ => false,
    }
}

/// A plan does an operation.
pub open spec fn does(env: StepEnv, keys: Seq<SpecKey>, op: OpModel, plan: PlanModel) -> bool {
    match op {
        Op::EmbeddingBatch { .. } => plan matches PlanModel::Call { call }
            && env.embed.stack().len() == 1 && embeds(call.kernel, env.embed.stack()[0]),
        Op::MatMul { matrix, rhs, out } => {
            let s = read_shape(env, keys, rhs)->Ok_0;
            plan matches PlanModel::Multiply { product } && is_product(
                product,
                read_matrix(env, keys, matrix)->Ok_0,
                0,
                out_shape(keys, out)[1] as int,
                s[0] as int,
                s[1] as int,
            ) && out_shape(keys, out)[0] == s[0]
        },
        Op::MatVec { matrix, vector, out } => {
            let s = read_shape(env, keys, vector)->Ok_0;
            plan matches PlanModel::Multiply { product } && is_product(
                product,
                read_matrix(env, keys, matrix)->Ok_0,
                0,
                out_shape(keys, out)[0] as int,
                1,
                s[0] as int,
            )
        },
        Op::MatMulSlice { matrix, row_offset, out_features, rhs, out } => {
            let s = read_shape(env, keys, rhs)->Ok_0;
            plan matches PlanModel::Multiply { product } && is_product(
                product,
                read_matrix(env, keys, matrix)->Ok_0,
                row_offset as int,
                out_features as int,
                s[0] as int,
                s[1] as int,
            ) && out_shape(keys, out) == seq![s[0], out_features]
        },
        Op::Add { .. } => plan matches PlanModel::Call { call } && call.kernel is Add2d,
        Op::SiluMul { .. } => plan matches PlanModel::Call { call } && call.kernel is SiluMul2d,
        Op::RmsNorm { x, n, .. } => {
            let s = read_shape(env, keys, x)->Ok_0;
            plan matches PlanModel::Norm { norm } && norm.call.kernel is RmsNorm
                && norm.call.generics[0] == n && norm.call.tile == seq![1usize, n] && s.last() == n
                && (s.len() == 1 && norm.rows == 1 || s.len() == 2 && norm.rows == s[0])
        },
        Op::AddRmsNorm { residual, x, n, .. } => {
            let s = read_shape(env, keys, residual)->Ok_0;
            plan matches PlanModel::Norm { norm } && norm.call.kernel is AddRmsNorm
                && norm.call.generics[0] == n && norm.call.tile == seq![1usize, n]
                && norm.call.second_tile == norm.call.tile && s.last() == n && s == read_shape(
                env,
                keys,
                x,
            )->Ok_0 && (s.len() == 1 && norm.rows == 1 || s.len() == 2 && norm.rows == s[0])
        },
        Op::Reshape { .. } => plan is Rename,
        Op::Rope { .. } => plan matches PlanModel::Call { call } && call.generics[0]
            == env.dims.head_dim && call.generics[1] == env.dims.head_dim / 2
            && match env.position {
            PositionInput::Host(start) => call.kernel is RopeSeq && call.ints == seq![start],
            PositionInput::Device(_) => call.kernel is RopeSeqDynpos,
        },
        Op::KvCacheUpdate { new_k, .. } => {
            let s = read_shape(env, keys, new_k)->Ok_0;
            plan matches PlanModel::Call { call } && match env.position {
                PositionInput::Host(start) => call.kernel is KvCacheUpdateSeq && call.ints
                    == seq![start, s[0]] && start + s[0] <= env.dims.max_seq_len,
                PositionInput::Device(_) => call.kernel is KvCacheUpdateSeqDynpos && call.ints
                    == seq![1usize] && s[0] == 1,
            }
        },
        Op::QkNormRopeKvPrefill { q, .. } => {
            let s = read_shape(env, keys, q)->Ok_0;
            plan matches PlanModel::Call { call } && call.kernel is QkNormRopeKvPrefillRaw
                && match env.position {
                PositionInput::Host(start) => call.ints == seq![
                    start,
                    s[0],
                    env.dims.heads,
                    env.dims.kv_heads,
                ] && start + s[0] <= env.dims.max_seq_len,
                PositionInput::Device(_) => false,
            } && call.generics == seq![
                env.dims.head_dim,
                env.dims.head_dim / 2,
                env.dims.max_seq_len,
            ] && (call.grid matches Some(g) && g.x == s[0] && g.y == env.dims.heads
                + env.dims.kv_heads && g.z == 1)
        },
        Op::Attention { q, .. } => {
            let s = read_shape(env, keys, q)->Ok_0;
            plan matches PlanModel::Call { call } && match env.position {
                PositionInput::Host(start) => is_attention(
                    call,
                    env.dims.heads as int / env.dims.kv_heads as int,
                    start as int,
                    s[0] as int,
                    env.dims.head_dim as int,
                ),
                PositionInput::Device(_) => call.kernel is FmhaCausal && s[0] == 1
                    && call.ints.len() == 1 && call.ints[0] == env.dims.heads as int
                    / env.dims.kv_heads as int,
            }
        },
        Op::GatherRow { src, row_idx, .. } => plan matches PlanModel::Call { call }
            && call.kernel is GatherRow && call.ints == seq![row_idx] && row_idx < read_shape(
            env,
            keys,
            src,
        )->Ok_0[0],
        Op::SliceCols { input, .. } => plan matches PlanModel::Copy { copies } && copies.len()
            == read_shape(env, keys, input)->Ok_0[0],
    }
}

proof fn lemma_parts(parts: Seq<Weight>, n: int, k: int, len: usize, tmp: Option<usize>)
    requires
        0 <= k <= n,
        n == parts.len(),
        rows_before(parts, n) <= usize::MAX,
        forall|i: int|
            0 <= i < n ==> 0 <= #[trigger] rows_before(parts, i) <= rows_before(parts, n),
        part_steps(parts, k, len, tmp) is Ok,
    ensures
        ({
            let s = part_steps(parts, k, len, tmp)->Ok_0;
            &&& s.len() == k
            &&& forall|i: int|
                0 <= i < k ==> multiplies((#[trigger] s[i]).call.kernel, parts[i]) && s[i].rows
                    == parts[i].dims()[0] && s[i].offset == rows_before(parts, i)
        }),
    decreases k,
{
    if k > 0 {
        lemma_parts(parts, n, k - 1, len, tmp);
    }
}

proof fn lemma_rows(parts: Seq<Weight>, a: int, b: int)
    requires
        0 <= a <= b,
    ensures
        0 <= rows_before(parts, a) <= rows_before(parts, b),
    decreases b,
{
    if a < b {
        lemma_rows(parts, a, b - 1);
    } else if a > 0 {
        lemma_rows(parts, a - 1, a - 1);
    }
}

proof fn lemma_slice(parts: Seq<Weight>, k: int, start: int, end: int)
    requires
        0 <= k <= parts.len(),
        0 <= start <= end <= usize::MAX,
        slice_parts(parts, k, start, end) is Ok,
    ensures
        ({
            let s = slice_parts(parts, k, start, end)->Ok_0;
            forall|j: int|
                0 <= j < s.len() ==> 0 <= (#[trigger] s[j]).1 < k && s[j].0 == rows_before(
                    parts,
                    s[j].1,
                ) - start
        }),
    decreases k,
{
    if k > 0 {
        lemma_slice(parts, k - 1, start, end);
        lemma_rows(parts, k - 1, k);
    }
}

proof fn lemma_matrix(m: MatrixWeight)
    requires
        m.wf(),
        m.dims().len() == 2,
    ensures
        m.stack().len() >= 1,
        rows_before(m.stack(), 0) == 0,
        m.stack().len() == 1 ==> m.stack()[0].dims() == m.dims(),
        m.stack().len() > 1 ==> rows_before(m.stack(), m.stack().len() as int) == m.dims()[0],
        forall|i: int|
            0 <= i < m.stack().len() ==> 0 <= #[trigger] rows_before(m.stack(), i) <= rows_before(
                m.stack(),
                m.stack().len() as int,
            ),
{
    let n = m.stack().len() as int;
    if n == 1 {
        reveal_with_fuel(rows_before, 2);
        assert(m.dims() =~= m.stack()[0].dims());
    }
    assert forall|i: int| 0 <= i < n implies 0 <= #[trigger] rows_before(m.stack(), i) <= rows_before(
        m.stack(),
        n,
    ) by {
        lemma_rows(m.stack(), i, n);
    }
}

proof fn lemma_direct(p: Part, len: usize, out: Seq<usize>)
    ensures
        gemv_part(p, len, out) matches Ok(c) ==> computes_rows(c, p.rows as int),
        decode_gemv_part(p) matches Ok(c) ==> computes_rows(c, p.rows as int),
{
    let rows = p.rows as int;
    let by8 = rows / 8;
    let by16 = rows / 16;
    let (e, s, o): (int, int, int) = (8, 16, 1);
    assert(by8 * e <= rows < (by8 + 1) * e) by (nonlinear_arith)
        requires
            by8 == rows / 8,
            e == 8,
    ;
    assert(by16 * s <= rows < (by16 + 1) * s) by (nonlinear_arith)
        requires
            by16 == rows / 16,
            s == 16,
    ;
    assert(rows * o <= rows < (rows + 1) * o) by (nonlinear_arith)
        requires
            o == 1,
    ;
}

/// The rows of a matrix times a vector are computed by the kernels for its parts.
pub proof fn law_vector_products_are_products(
    m: MatrixWeight,
    vector: Seq<usize>,
    out: Seq<usize>,
    tmp: usize,
)
    requires
        ready_matrix(m),
    ensures
        gemv_spec(m, vector, out) matches Ok(p) ==> is_product(
            p,
            MatrixModel::Weight { matrix: m },
            0,
            out[0] as int,
            1,
            vector[0] as int,
        ),
        out == seq![m.dims()[0]] ==> (decode_gemv_spec(m, out, tmp) matches Ok(p) ==> is_product(
            p,
            MatrixModel::Weight { matrix: m },
            0,
            out[0] as int,
            1,
            m.dims()[1] as int,
        )),
{
    lemma_matrix(m);
    lemma_direct(part_spec(m.stack()[0]), vector[0], out);
    let n = m.stack().len() as int;
    if n > 1 {
        if part_steps(m.stack(), n, m.dims()[1], None) is Ok {
            lemma_parts(m.stack(), n, n, m.dims()[1], None);
        }
        if part_steps(m.stack(), n, m.dims()[1], Some(tmp)) is Ok {
            lemma_parts(m.stack(), n, n, m.dims()[1], Some(tmp));
        }
    }
}

proof fn lemma_matmul(
    m: MatrixModel,
    rhs: Seq<usize>,
    out: Seq<usize>,
    scratch: Option<usize>,
)
    requires
        m matches MatrixModel::Weight { matrix } ==> ready_matrix(matrix),
    ensures
        rows_product(m, rhs, out, scratch) matches Ok(p) ==> is_product(
            p,
            m,
            0,
            out[1] as int,
            rhs[0] as int,
            rhs[1] as int,
        ) && out[0] == rhs[0],
{
    match m {
        MatrixModel::Weight { matrix } => {
            lemma_matrix(matrix);
            law_vector_products_are_products(matrix, seq![rhs[1]], seq![matrix.dims()[0]], 0);
            assert(matrix.stack()[0] == matrix.stack()[0]);
        },
        MatrixModel::Value { .. } => {},
    }
}

proof fn lemma_matmul_slice(
    m: MatrixModel,
    row_offset: usize,
    out_features: usize,
    rhs: Seq<usize>,
    out: Seq<usize>,
    scratch: Option<usize>,
)
    requires
        m matches MatrixModel::Weight { matrix } ==> ready_matrix(matrix),
        row_offset + out_features <= usize::MAX,
        row_offset * matrix_dims(m)[1] * 2 <= usize::MAX,
    ensures
        slice_product(m, row_offset, out_features, rhs, out, scratch) matches Ok(p) ==> is_product(
            p,
            m,
            row_offset as int,
            out_features as int,
            rhs[0] as int,
            rhs[1] as int,
        ) && out == seq![rhs[0], out_features],
{
    let cols = matrix_dims(m)[1];
    assert(row_offset * cols >= 0) by (nonlinear_arith);
    match m {
        MatrixModel::Weight { matrix } => {
            lemma_matrix(matrix);
            let parts = matrix.stack();
            let end = row_offset + out_features;
            if slice_parts(parts, parts.len() as int, row_offset as int, end) is Ok {
                lemma_slice(parts, parts.len() as int, row_offset as int, end);
            }
        },
        MatrixModel::Value { .. } => {},
    }
}

proof fn lemma_read_matrix(env: StepEnv, keys: Seq<SpecKey>, r: TensorRef)
    requires
        env_ready(env),
        matrix_ready(env, keys, r),
    ensures
        read_matrix(env, keys, r) matches Ok(MatrixModel::Weight { matrix }) ==> ready_matrix(
            matrix,
        ),
{
    match r {
        TensorRef::Weight(WeightRef::Layer { layer_idx, .. }) => {
            let layer = env.layers@[layer_idx as int];
        },
        _ => {},
    }
}

/// An operation that multiplies by a matrix.
pub open spec fn is_multiplication(op: OpModel) -> bool {
    op is MatMul || op is MatVec || op is MatMulSlice
}

#[verifier::spinoff_prover]
#[verifier::rlimit(40)]
proof fn lemma_multiplications(env: StepEnv, keys: Seq<SpecKey>, op: OpModel)
    requires
        env_ready(env),
        op_ready(env, keys, op),
        is_multiplication(op),
    ensures
        op_plan(env, keys, op) matches Ok(plan) ==> does(env, keys, op, plan),
{
    match op {
        Op::MatMul { matrix, rhs, out } => {
            lemma_read_matrix(env, keys, matrix);
            if read_matrix(env, keys, matrix) is Ok && read_shape(env, keys, rhs) is Ok {
                lemma_matmul(
                    read_matrix(env, keys, matrix)->Ok_0,
                    read_shape(env, keys, rhs)->Ok_0,
                    out_shape(keys, out),
                    env.scratch,
                );
            }
        },
        Op::MatVec { matrix, vector, out } => {
            lemma_read_matrix(env, keys, matrix);
            if read_matrix(env, keys, matrix) is Ok && read_shape(env, keys, vector) is Ok {
                match read_matrix(env, keys, matrix)->Ok_0 {
                    MatrixModel::Weight { matrix } => {
                        law_vector_products_are_products(
                            matrix,
                            read_shape(env, keys, vector)->Ok_0,
                            out_shape(keys, out),
                            0,
                        );
                    },
                    MatrixModel::Value { .. } => {},
                }
            }
        },
        Op::MatMulSlice { matrix, row_offset, out_features, rhs, out } => {
            lemma_read_matrix(env, keys, matrix);
            if read_matrix(env, keys, matrix) is Ok && read_shape(env, keys, rhs) is Ok {
                lemma_matmul_slice(
                    read_matrix(env, keys, matrix)->Ok_0,
                    row_offset,
                    out_features,
                    read_shape(env, keys, rhs)->Ok_0,
                    out_shape(keys, out),
                    env.scratch,
                );
            }
        },
        _ => {},
    }
}

/// An operation on positions and caches.
pub open spec fn is_positional(op: OpModel) -> bool {
    op is Rope || op is KvCacheUpdate || op is QkNormRopeKvPrefill || op is Attention
}

#[verifier::spinoff_prover]
#[verifier::rlimit(40)]
proof fn lemma_positional(env: StepEnv, keys: Seq<SpecKey>, op: OpModel)
    requires
        env_ready(env),
        op_ready(env, keys, op),
        is_positional(op),
    ensures
        op_plan(env, keys, op) matches Ok(plan) ==> does(env, keys, op, plan),
{
    match op {
        Op::Rope { .. } => {},
        Op::KvCacheUpdate { .. } => {},
        Op::QkNormRopeKvPrefill { .. } => {},
        Op::Attention { q, .. } => {
            if read_shape(env, keys, q) is Ok {
                let bm = env.knobs.bm_prefill;
                assert(ATTN_BM_DECODE == 1);
                if op_plan(env, keys, op) is Ok && packed_heads(env.dims, env.knobs) is Ok {
                    lemma_packed(env.dims, env.knobs, bm);
                    lemma_packed(env.dims, env.knobs, 1);
                }
            }
        },
        _ => {},
    }
}

#[verifier::spinoff_prover]
#[verifier::rlimit(40)]
proof fn lemma_others(env: StepEnv, keys: Seq<SpecKey>, op: OpModel)
    requires
        env_ready(env),
        op_ready(env, keys, op),
        !is_multiplication(op),
        !is_positional(op),
    ensures
        op_plan(env, keys, op) matches Ok(plan) ==> does(env, keys, op, plan),
{
    lemma_matrix(*env.embed);
}

/// What is launched for an operation does that operation: the kernel is one for it, and gets
/// the sizes, the position and the rows of its tensors.
pub proof fn law_plans_do_their_operation(env: StepEnv, keys: Seq<SpecKey>, op: OpModel)
    requires
        env_ready(env),
        op_ready(env, keys, op),
    ensures
        op_plan(env, keys, op) matches Ok(plan) ==> does(env, keys, op, plan),
{
    if is_multiplication(op) {
        lemma_multiplications(env, keys, op);
    } else if is_positional(op) {
        lemma_positional(env, keys, op);
    } else {
        lemma_others(env, keys, op);
    }
}

} // verus!
