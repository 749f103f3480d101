//! A forward step of a model with its own weights launches all of its operations, and so does
//! its warm-up.
use crate::attention::{attn_sizes, group_size, packed_heads, PositionInput, ROPE_BLOCK};
use crate::cublas::I32_MAX;
use crate::dispatch::{
    env_ready, has_caches, matrix_weight, op_plan, op_ready, plain_weight, StepEnv, TokenInput,
};
use crate::forward::{
    attention_at, attention_keys, attention_ops, body_keys, body_ops, ff_at, ff_keys, ff_ops, fits,
    head_keys, head_ops, heads_at, heads_keys, heads_ops, layer_at, layer_keys, layer_ops,
    layer_size, lemma_body_len, lemma_fits, qkv_keys, qkv_ops, rope_at, rope_keys, rope_ops, rv,
    step_keys, step_ops, vid, width, LayerWeights, StepDims,
};
use crate::gguf::dims_product;
use crate::graph::{half_key, LayerWeightSlot, Op, OpModel, SpecKey, TensorRef, WeightRef};
use crate::kernel::KernelKind;
use crate::products::{one_half, Part};
use crate::warmup::{
    quant_warm, warm_ops, warm_step_spec, NormWeight, WarmDims, WarmModel, WarmRows,
};
use crate::weights::{lengths, MatrixWeight};
use vstd::prelude::*;

verus! {

/// An unquantized matrix of `rows` by `cols`.
pub open spec fn plain_matrix(m: MatrixWeight, rows: int, cols: int) -> bool {
    one_half(m) && m.dims() == seq![rows as usize, cols as usize]
}

/// The weights of a layer have the shapes of the model.
pub open spec fn layer_shaped(w: LayerWeights, p: StepDims) -> bool {
    &&& plain_matrix(w.qkv_proj, p.attn() + 2 * p.kv(), p.hidden as int)
    &&& plain_matrix(w.o_proj, p.hidden as int, p.attn() as int)
    &&& plain_matrix(w.gate_up_proj, 2 * p.inter, p.hidden as int)
    &&& plain_matrix(w.down_proj, p.hidden as int, p.inter as int)
    &&& lengths(w.input_layernorm.shape@) is Some
    &&& lengths(w.post_attention_layernorm.shape@) is Some
    &&& lengths(w.q_norm.shape@) is Some
    &&& lengths(w.k_norm.shape@) is Some
}

/// A step of `p.seqlen` tokens from `start` on, of a model with unquantized weights of its
/// own shapes, whose caches are there and reach past the last token.
pub open spec fn model_step(env: StepEnv, p: StepDims, start: usize) -> bool {
    &&& fits(p)
    &&& env_ready(env)
    &&& env.dims.heads == p.heads && env.dims.kv_heads == p.kv_heads && env.dims.head_dim
        == p.head_dim
    &&& env.hidden == p.hidden
    &&& env.tokens == TokenInput::Host(p.seqlen)
    &&& env.position == PositionInput::Host(start)
    &&& start + p.seqlen <= env.dims.max_seq_len
    &&& env.layers@.len() == p.layers
    &&& one_half(*env.embed)
    &&& plain_matrix(*env.head, p.vocab as int, p.hidden as int)
    &&& lengths(env.norm.shape@) is Some
    &&& forall|l: int| #![trigger env.layers@[l]]
        0 <= l < p.layers ==> layer_shaped(env.layers@[l], p)
    &&& forall|l: usize| l < p.layers ==> #[trigger] has_caches(env, l)
    &&& attn_sizes(p.seqlen, start as int, env.dims, env.knobs)
    &&& packed_heads(env.dims, env.knobs) is Ok
    &&& env.dims.heads % env.dims.kv_heads == 0
    &&& env.knobs.schedule <= 3
    &&& p.head_dim == ROPE_BLOCK
    &&& p.kv_heads >= 1 && p.inter >= 1 && p.vocab >= 1
    &&& p.seqlen <= I32_MAX && p.vocab <= I32_MAX
    &&& width(p) <= I32_MAX
    &&& 2 * (width(p) * p.hidden) <= usize::MAX
}

/// An operation is ready and launches something.
#[verifier::opaque]
pub open spec fn launches(env: StepEnv, keys: Seq<SpecKey>, op: OpModel) -> bool {
    op_ready(env, keys, op) && op_plan(env, keys, op) is Ok
}

/// The value in place `i` has this shape.
spec fn shaped(keys: Seq<SpecKey>, i: int, shape: Seq<usize>) -> bool {
    0 <= i < keys.len() <= usize::MAX && keys[i] == half_key(shape)
}

proof fn lemma_rows(a: usize, n: usize)
    requires
        a * n <= usize::MAX,
    ensures
        dims_product(seq![a, n]) == Some((a * n) as usize),
{
    reveal_with_fuel(dims_product, 3);
    let s = seq![a, n];
    assert(s.drop_last() =~= seq![a]);
    assert(seq![a].drop_last() =~= Seq::empty());
    assert(dims_product(Seq::empty()) == Some(1usize));
    let unit: usize = 1;
    assert(unit * a == a) by (nonlinear_arith)
        requires
            unit == 1,
    ;
    assert(dims_product(seq![a]) == Some(a));
}

proof fn lemma_norm(
    env: StepEnv,
    keys: Seq<SpecKey>,
    x: int,
    weight: WeightRef,
    rows: usize,
    n: usize,
    out: int,
)
    requires
        shaped(keys, x, seq![rows, n]),
        shaped(keys, out, seq![rows, n]),
        rows * n <= usize::MAX,
        weight matches WeightRef::Layer { layer_idx, .. } ==> layer_idx < env.layers@.len(),
        plain_weight(env, weight) matches Some(b) && lengths(b.shape@) is Some,
    ensures
        launches(
            env,
            keys,
            Op::RmsNorm { x: rv(x), weight: TensorRef::Weight(weight), n, out: vid(out) },
        ),
{
    reveal(launches);
    lemma_rows(rows, n);
}

proof fn lemma_add_norm(
    env: StepEnv,
    keys: Seq<SpecKey>,
    residual: int,
    x: int,
    weight: WeightRef,
    rows: usize,
    n: usize,
    out: int,
    residual_out: int,
)
    requires
        shaped(keys, residual, seq![rows, n]),
        shaped(keys, x, seq![rows, n]),
        shaped(keys, out, seq![rows, n]),
        shaped(keys, residual_out, seq![rows, n]),
        rows * n <= usize::MAX,
        weight matches WeightRef::Layer { layer_idx, .. } ==> layer_idx < env.layers@.len(),
        plain_weight(env, weight) matches Some(b) && lengths(b.shape@) is Some,
    ensures
        launches(
            env,
            keys,
            Op::AddRmsNorm {
                residual: rv(residual),
                x: rv(x),
                weight: TensorRef::Weight(weight),
                n,
                out: vid(out),
                residual_out: vid(residual_out),
            },
        ),
{
    reveal(launches);
    lemma_rows(rows, n);
}

/// The sizes of a product are those that the library takes.
spec fn product_sizes(m: int, n: int, k: int) -> bool {
    1 <= m <= I32_MAX && 1 <= n <= I32_MAX && 1 <= k <= I32_MAX
}

proof fn lemma_matmul(
    env: StepEnv,
    keys: Seq<SpecKey>,
    weight: WeightRef,
    rhs: int,
    out: int,
    n: usize,
    rows: usize,
    cols: usize,
)
    requires
        shaped(keys, rhs, seq![n, cols]),
        shaped(keys, out, seq![n, rows]),
        weight matches WeightRef::Layer { layer_idx, .. } ==> layer_idx < env.layers@.len(),
        matrix_weight(env, weight) matches Some(m) && plain_matrix(m, rows as int, cols as int),
        product_sizes(rows as int, n as int, cols as int),
    ensures
        launches(
            env,
            keys,
            Op::MatMul { matrix: TensorRef::Weight(weight), rhs: rv(rhs), out: vid(out) },
        ),
{
    reveal(launches);
}

proof fn lemma_matvec(
    env: StepEnv,
    keys: Seq<SpecKey>,
    weight: WeightRef,
    vector: int,
    out: int,
    rows: usize,
    cols: usize,
)
    requires
        shaped(keys, vector, seq![cols]),
        shaped(keys, out, seq![rows]),
        weight matches WeightRef::Layer { layer_idx, .. } ==> layer_idx < env.layers@.len(),
        matrix_weight(env, weight) matches Some(m) && plain_matrix(m, rows as int, cols as int),
        product_sizes(rows as int, 1, cols as int),
    ensures
        launches(
            env,
            keys,
            Op::MatVec { matrix: TensorRef::Weight(weight), vector: rv(vector), out: vid(out) },
        ),
{
    reveal(launches);
}

proof fn lemma_matmul_slice(
    env: StepEnv,
    keys: Seq<SpecKey>,
    weight: WeightRef,
    from: usize,
    rhs: int,
    out: int,
    n: usize,
    rows: usize,
    all: int,
    cols: usize,
)
    requires
        shaped(keys, rhs, seq![n, cols]),
        shaped(keys, out, seq![n, rows]),
        weight matches WeightRef::Layer { layer_idx, .. } ==> layer_idx < env.layers@.len(),
        matrix_weight(env, weight) matches Some(m) && plain_matrix(m, all, cols as int),
        product_sizes(rows as int, n as int, cols as int),
        from + rows <= all <= I32_MAX,
        2 * (all * cols) <= usize::MAX,
    ensures
        launches(
            env,
            keys,
            Op::MatMulSlice {
                matrix: TensorRef::Weight(weight),
                row_offset: from,
                out_features: rows,
                rhs: rv(rhs),
                out: vid(out),
            },
        ),
{
    reveal(launches);
    assert(0 <= from * cols * 2 <= 2 * (all * cols)) by (nonlinear_arith)
        requires
            0 <= from <= all,
            0 <= cols,
    ;
}

proof fn lemma_slice_cols(
    env: StepEnv,
    keys: Seq<SpecKey>,
    input: int,
    all: usize,
    from: usize,
    cols: usize,
    out: int,
)
    requires
        shaped(keys, input, seq![1, all]),
        2 * from <= usize::MAX,
        2 * cols <= usize::MAX,
    ensures
        launches(
            env,
            keys,
            Op::SliceCols { input: rv(input), col_offset: from, out_cols: cols, out: vid(out) },
        ),
{
    reveal(launches);
    let rows = seq![1usize, all][0];
    assert((rows - 1) * all == 0 && 2 * (rows - 1) * cols == 0) by (nonlinear_arith)
        requires
            rows == 1,
    ;
}

proof fn lemma_add(
    env: StepEnv,
    keys: Seq<SpecKey>,
    a: int,
    b: int,
    out: int,
    rows: usize,
    n: usize,
)
    requires
        shaped(keys, a, seq![rows, n]),
        shaped(keys, b, seq![rows, n]),
        shaped(keys, out, seq![rows, n]),
    ensures
        launches(env, keys, Op::Add { lhs: rv(a), rhs: rv(b), out: vid(out) }),
        launches(env, keys, Op::SiluMul { gate: rv(a), up: rv(b), out: vid(out) }),
{
    reveal(launches);
}

proof fn lemma_rename(env: StepEnv, keys: Seq<SpecKey>, x: int, shape: Seq<usize>, out: int)
    ensures
        launches(env, keys, Op::Reshape { input: rv(x), shape, out: vid(out) }),
{
    reveal(launches);
}

proof fn lemma_rotate(env: StepEnv, keys: Seq<SpecKey>, x: int, out: int, n: usize, heads: usize)
    requires
        shaped(keys, x, seq![n, heads, env.dims.head_dim]),
        shaped(keys, out, seq![n, heads, env.dims.head_dim]),
        env.dims.head_dim == ROPE_BLOCK,
        env.position is Host,
    ensures
        launches(env, keys, Op::Rope { x: rv(x), out: vid(out) }),
{
    reveal(launches);
}

proof fn lemma_cache_update(
    env: StepEnv,
    keys: Seq<SpecKey>,
    l: usize,
    k: int,
    v: int,
    n: usize,
    start: usize,
)
    requires
        shaped(keys, k, seq![n, env.dims.kv_heads, env.dims.head_dim]),
        shaped(keys, v, seq![n, env.dims.kv_heads, env.dims.head_dim]),
        env.position == PositionInput::Host(start),
        start + n <= env.dims.max_seq_len,
        l < env.caches@.len(),
        has_caches(env, l),
    ensures
        launches(env, keys, Op::KvCacheUpdate { layer_idx: l, new_k: rv(k), new_v: rv(v) }),
{
    reveal(launches);
}

proof fn lemma_fused(
    env: StepEnv,
    keys: Seq<SpecKey>,
    l: usize,
    h: int,
    out: int,
    n: usize,
    start: usize,
)
    requires
        shaped(keys, h, seq![n, env.dims.heads, env.dims.head_dim]),
        shaped(keys, h + 1, seq![n, env.dims.kv_heads, env.dims.head_dim]),
        shaped(keys, h + 2, seq![n, env.dims.kv_heads, env.dims.head_dim]),
        shaped(keys, out, seq![n, env.dims.heads, env.dims.head_dim]),
        env.dims.head_dim == ROPE_BLOCK,
        env.position == PositionInput::Host(start),
        start + n <= env.dims.max_seq_len,
        l < env.caches@.len(),
        has_caches(env, l),
    ensures
        launches(
            env,
            keys,
            Op::QkNormRopeKvPrefill {
                layer_idx: l,
                q: rv(h),
                k: rv(h + 1),
                v: rv(h + 2),
                out: vid(out),
            },
        ),
{
    reveal(launches);
}

proof fn lemma_attend(
    env: StepEnv,
    keys: Seq<SpecKey>,
    l: usize,
    q: int,
    out: int,
    n: usize,
    start: usize,
)
    requires
        shaped(keys, q, seq![n, env.dims.heads, env.dims.head_dim]),
        shaped(keys, out, seq![n, env.dims.heads, env.dims.head_dim]),
        env.position == PositionInput::Host(start),
        l < env.caches@.len(),
        has_caches(env, l),
        attn_sizes(n, start as int, env.dims, env.knobs),
        packed_heads(env.dims, env.knobs) is Ok,
        env.dims.heads % env.dims.kv_heads == 0,
        env.knobs.schedule <= 3,
    ensures
        launches(env, keys, Op::Attention { layer_idx: l, q: rv(q), out: vid(out) }),
{
    reveal(launches);
    let group = packed_heads(env.dims, env.knobs)->Ok_0;
    let share = group_size(env.dims);
    let each = share as int / group as int;
    assert(env.dims.heads % group == 0) by {
        assert(share * env.dims.kv_heads == env.dims.heads) by (nonlinear_arith)
            requires
                share == env.dims.heads / env.dims.kv_heads,
                env.dims.heads % env.dims.kv_heads == 0,
                env.dims.kv_heads >= 1,
        ;
        assert(share == each * group) by (nonlinear_arith)
            requires
                each == share as int / group as int,
                share % group == 0,
                group >= 1,
        ;
        let whole = each * env.dims.kv_heads;
        assert(env.dims.heads == group * whole) by (nonlinear_arith)
            requires
                share * env.dims.kv_heads == env.dims.heads,
                share == each * group,
                whole == each * env.dims.kv_heads,
        ;
        vstd::arithmetic::div_mod::lemma_mod_multiples_basic(whole, group as int);
        assert(group * whole == whole * group) by (nonlinear_arith);
    }
}

proof fn lemma_last_row(
    env: StepEnv,
    keys: Seq<SpecKey>,
    src: int,
    row: usize,
    rows: usize,
    n: usize,
    out: int,
)
    requires
        shaped(keys, src, seq![rows, n]),
        shaped(keys, out, seq![n]),
        row < rows,
    ensures
        launches(env, keys, Op::GatherRow { src: rv(src), row_idx: row, out: vid(out) }),
{
    reveal(launches);
}

/// `part` stands in `keys` from `b` on.
spec fn stands(keys: Seq<SpecKey>, part: Seq<SpecKey>, b: int) -> bool {
    &&& 0 <= b
    &&& b + part.len() <= keys.len() <= usize::MAX
    &&& forall|i: int| 0 <= i < part.len() ==> #[trigger] keys[b + i] == part[i]
}

/// All operations launch something.
spec fn all_launch(env: StepEnv, keys: Seq<SpecKey>, ops: Seq<OpModel>) -> bool {
    forall|k: int| 0 <= k < ops.len() ==> launches(env, keys, #[trigger] ops[k])
}

proof fn lemma_all_launch(env: StepEnv, keys: Seq<SpecKey>, a: Seq<OpModel>, c: Seq<OpModel>)
    requires
        all_launch(env, keys, a),
        all_launch(env, keys, c),
    ensures
        all_launch(env, keys, a + c),
{
    assert forall|k: int| 0 <= k < (a + c).len() implies launches(
        env,
        keys,
        #[trigger] (a + c)[k],
    ) by {
        if k < a.len() {
            assert((a + c)[k] == a[k]);
        } else {
            assert((a + c)[k] == c[k - a.len()]);
        }
    }
}

/// The sizes of a step are small.
proof fn lemma_small(env: StepEnv, p: StepDims, start: usize)
    requires
        model_step(env, p, start),
    ensures
        p.attn() == p.heads * p.head_dim,
        p.kv() == p.kv_heads * p.head_dim,
        1 <= p.attn(),
        1 <= p.kv(),
        p.attn() + 2 * p.kv() <= I32_MAX,
        1 <= p.inter && 2 * p.inter <= I32_MAX,
        1 <= p.hidden <= I32_MAX,
        1 <= p.heads,
        0 <= p.seqlen * p.hidden <= usize::MAX,
        0 <= (p.seqlen * p.heads) * p.head_dim <= usize::MAX,
        0 <= (p.seqlen * p.kv_heads) * p.head_dim <= usize::MAX,
        p.seqlen * p.heads <= usize::MAX,
        p.seqlen * p.kv_heads <= usize::MAX,
        2 * ((p.attn() + 2 * p.kv()) * p.hidden) <= usize::MAX,
        2 * ((2 * p.inter) * p.hidden) <= usize::MAX,
{
    lemma_fits(p);
    let w = width(p);
    let a = p.heads * p.head_dim;
    let c = p.kv_heads * p.head_dim;
    assert(a >= 1 && c >= 1) by (nonlinear_arith)
        requires
            a == p.heads * p.head_dim,
            c == p.kv_heads * p.head_dim,
            p.heads >= 1,
            p.kv_heads >= 1,
            p.head_dim >= 1,
    ;
    assert(0 <= p.seqlen * p.hidden <= p.seqlen * w) by (nonlinear_arith)
        requires
            0 <= p.hidden <= w,
            p.seqlen >= 0,
    ;
    assert(0 <= (p.seqlen * p.heads) * p.head_dim <= p.seqlen * w) by (nonlinear_arith)
        requires
            a == p.heads * p.head_dim,
            0 <= a <= w,
            p.seqlen >= 0,
    ;
    assert(0 <= (p.seqlen * p.kv_heads) * p.head_dim <= p.seqlen * w) by (nonlinear_arith)
        requires
            c == p.kv_heads * p.head_dim,
            0 <= c <= w,
            p.seqlen >= 0,
    ;
    let q = p.attn() + 2 * p.kv();
    let g = 2 * p.inter;
    assert(q * p.hidden <= w * p.hidden && g * p.hidden <= w * p.hidden) by (nonlinear_arith)
        requires
            q <= w,
            g <= w,
            p.hidden >= 0,
    ;
}

proof fn lemma_qkv_launches(
    env: StepEnv,
    p: StepDims,
    start: usize,
    keys: Seq<SpecKey>,
    l: usize,
    b: int,
)
    requires
        model_step(env, p, start),
        l < p.layers,
        stands(keys, qkv_keys(p), b),
        shaped(keys, b - 1, seq![p.seqlen, p.hidden]),
    ensures
        all_launch(env, keys, qkv_ops(p, l, b - 1, b)),
{
    lemma_small(env, p, start);
    let part = qkv_keys(p);
    let ops = qkv_ops(p, l, b - 1, b);
    let norm = WeightRef::Layer { layer_idx: l, slot: LayerWeightSlot::InputLayerNorm };
    let proj = WeightRef::Layer { layer_idx: l, slot: LayerWeightSlot::QkvProj };
    let all = p.attn() + 2 * p.kv();
    let v_at = (p.attn() + p.kv()) as usize;
    assert(layer_shaped(env.layers@[l as int], p));
    assert(keys[b + 0] == part[0] && keys[b + 1] == part[1] && keys[b + 2] == part[2]
        && keys[b + 3] == part[3]);
    lemma_norm(env, keys, b - 1, norm, p.seqlen, p.hidden, b);
    if p.decode() {
        assert(keys[b + 4] == part[4]);
        lemma_matmul(env, keys, proj, b, b + 4, p.seqlen, all as usize, p.hidden);
        lemma_slice_cols(env, keys, b + 4, all as usize, 0, p.attn(), b + 1);
        lemma_slice_cols(env, keys, b + 4, all as usize, p.attn(), p.kv(), b + 2);
        lemma_slice_cols(env, keys, b + 4, all as usize, v_at, p.kv(), b + 3);
    } else {
        lemma_matmul_slice(env, keys, proj, 0, b, b + 1, p.seqlen, p.attn(), all, p.hidden);
        lemma_matmul_slice(env, keys, proj, p.attn(), b, b + 2, p.seqlen, p.kv(), all, p.hidden);
        lemma_matmul_slice(env, keys, proj, v_at, b, b + 3, p.seqlen, p.kv(), all, p.hidden);
    }
}

proof fn lemma_heads_launch(env: StepEnv, p: StepDims, keys: Seq<SpecKey>, q: int, b: int)
    ensures
        all_launch(env, keys, heads_ops(p, q, b)),
{
    lemma_rename(env, keys, q, seq![p.seqlen, p.heads, p.head_dim], b);
    lemma_rename(env, keys, q + 1, seq![p.seqlen, p.kv_heads, p.head_dim], b + 1);
    lemma_rename(env, keys, q + 2, seq![p.seqlen, p.kv_heads, p.head_dim], b + 2);
}

proof fn lemma_rope_launches(
    env: StepEnv,
    p: StepDims,
    start: usize,
    keys: Seq<SpecKey>,
    l: usize,
    h: int,
    b: int,
)
    requires
        model_step(env, p, start),
        l < p.layers,
        stands(keys, heads_keys(p), h),
        stands(keys, rope_keys(p), b),
    ensures
        all_launch(env, keys, rope_ops(p, l, h, b)),
{
    lemma_small(env, p, start);
    let heads = heads_keys(p);
    let part = rope_keys(p);
    let q_rows = (p.seqlen * p.heads) as usize;
    let k_rows = (p.seqlen * p.kv_heads) as usize;
    assert(has_caches(env, l));
    assert(layer_shaped(env.layers@[l as int], p));
    assert(keys[h + 0] == heads[0] && keys[h + 1] == heads[1] && keys[h + 2] == heads[2]);
    assert(keys[b + 0] == part[0]);
    if p.fuses() {
        lemma_fused(env, keys, l, h, b, p.seqlen, start);
    } else {
        assert(keys[b + 1] == part[1] && keys[b + 2] == part[2] && keys[b + 3] == part[3]
            && keys[b + 4] == part[4] && keys[b + 5] == part[5] && keys[b + 6] == part[6]
            && keys[b + 7] == part[7]);
        let q_norm = WeightRef::Layer { layer_idx: l, slot: LayerWeightSlot::QNorm };
        let k_norm = WeightRef::Layer { layer_idx: l, slot: LayerWeightSlot::KNorm };
        lemma_rename(env, keys, h, seq![q_rows, p.head_dim], b + 1);
        lemma_rename(env, keys, h + 1, seq![k_rows, p.head_dim], b + 2);
        lemma_norm(env, keys, b + 1, q_norm, q_rows, p.head_dim, b + 3);
        lemma_norm(env, keys, b + 2, k_norm, k_rows, p.head_dim, b + 4);
        lemma_rename(env, keys, b + 3, seq![p.seqlen, p.heads, p.head_dim], b + 5);
        lemma_rename(env, keys, b + 4, seq![p.seqlen, p.kv_heads, p.head_dim], b + 6);
        lemma_rotate(env, keys, b + 5, b, p.seqlen, p.heads);
        lemma_rotate(env, keys, b + 6, b + 7, p.seqlen, p.kv_heads);
        lemma_cache_update(env, keys, l, b + 7, h + 2, p.seqlen, start);
    }
}

proof fn lemma_attention_launches(
    env: StepEnv,
    p: StepDims,
    start: usize,
    keys: Seq<SpecKey>,
    l: usize,
    hidden: int,
    q: int,
    b: int,
)
    requires
        model_step(env, p, start),
        l < p.layers,
        shaped(keys, hidden, seq![p.seqlen, p.hidden]),
        shaped(keys, q, seq![p.seqlen, p.heads, p.head_dim]),
        stands(keys, attention_keys(p), b),
    ensures
        all_launch(env, keys, attention_ops(p, l, hidden, q, b)),
{
    lemma_small(env, p, start);
    let part = attention_keys(p);
    let proj = WeightRef::Layer { layer_idx: l, slot: LayerWeightSlot::OProj };
    let norm = WeightRef::Layer { layer_idx: l, slot: LayerWeightSlot::PostAttentionLayerNorm };
    assert(has_caches(env, l));
    assert(layer_shaped(env.layers@[l as int], p));
    assert(keys[b + 0] == part[0] && keys[b + 1] == part[1] && keys[b + 2] == part[2]
        && keys[b + 3] == part[3] && keys[b + 4] == part[4]);
    lemma_attend(env, keys, l, q, b, p.seqlen, start);
    lemma_rename(env, keys, b, seq![p.seqlen, p.attn()], b + 1);
    lemma_matmul(env, keys, proj, b + 1, b + 2, p.seqlen, p.hidden, p.attn());
    lemma_add_norm(env, keys, hidden, b + 2, norm, p.seqlen, p.hidden, b + 4, b + 3);
}

proof fn lemma_ff_launches(
    env: StepEnv,
    p: StepDims,
    start: usize,
    keys: Seq<SpecKey>,
    l: usize,
    sum: int,
    b: int,
)
    requires
        model_step(env, p, start),
        l < p.layers,
        shaped(keys, sum, seq![p.seqlen, p.hidden]),
        shaped(keys, sum + 1, seq![p.seqlen, p.hidden]),
        stands(keys, ff_keys(p), b),
    ensures
        all_launch(env, keys, ff_ops(p, l, sum, b)),
{
    lemma_small(env, p, start);
    let part = ff_keys(p);
    let wide = WeightRef::Layer { layer_idx: l, slot: LayerWeightSlot::GateUpProj };
    let down = WeightRef::Layer { layer_idx: l, slot: LayerWeightSlot::DownProj };
    let all = 2 * p.inter;
    assert(layer_shaped(env.layers@[l as int], p));
    assert(keys[b + 0] == part[0] && keys[b + 1] == part[1] && keys[b + 2] == part[2]
        && keys[b + 3] == part[3] && keys[b + 4] == part[4]);
    if p.decode() {
        assert(keys[b + 5] == part[5]);
        lemma_matmul(env, keys, wide, sum + 1, b + 2, p.seqlen, all as usize, p.hidden);
        lemma_slice_cols(env, keys, b + 2, all as usize, 0, p.inter, b);
        lemma_slice_cols(env, keys, b + 2, all as usize, p.inter, p.inter, b + 1);
        lemma_add(env, keys, b, b + 1, b + 3, p.seqlen, p.inter);
        lemma_matmul(env, keys, down, b + 3, b + 4, p.seqlen, p.hidden, p.inter);
        lemma_add(env, keys, sum, b + 4, b + 5, p.seqlen, p.hidden);
    } else {
        lemma_matmul_slice(env, keys, wide, 0, sum + 1, b, p.seqlen, p.inter, all, p.hidden);
        lemma_matmul_slice(
            env,
            keys,
            wide,
            p.inter,
            sum + 1,
            b + 1,
            p.seqlen,
            p.inter,
            all,
            p.hidden,
        );
        lemma_add(env, keys, b, b + 1, b + 2, p.seqlen, p.inter);
        lemma_matmul(env, keys, down, b + 2, b + 3, p.seqlen, p.hidden, p.inter);
        lemma_add(env, keys, sum, b + 3, b + 4, p.seqlen, p.hidden);
    }
}

/// A part of what stands also stands.
proof fn lemma_stands_in(keys: Seq<SpecKey>, a: Seq<SpecKey>, c: Seq<SpecKey>, b: int)
    requires
        stands(keys, a + c, b),
    ensures
        stands(keys, a, b),
        stands(keys, c, b + a.len()),
{
    assert forall|i: int| 0 <= i < a.len() implies #[trigger] keys[b + i] == a[i] by {
        assert((a + c)[i] == a[i]);
    }
    let at = b + a.len();
    assert forall|i: int| 0 <= i < c.len() implies #[trigger] keys[at + i] == c[i] by {
        assert(keys[b + (a.len() + i)] == (a + c)[a.len() + i]);
    }
}

proof fn lemma_layer_launches(
    env: StepEnv,
    p: StepDims,
    start: usize,
    keys: Seq<SpecKey>,
    l: usize,
    b: int,
)
    requires
        model_step(env, p, start),
        l < p.layers,
        stands(keys, layer_keys(p), b),
        shaped(keys, b - 1, seq![p.seqlen, p.hidden]),
    ensures
        all_launch(env, keys, layer_ops(p, l, b)),
        shaped(keys, b + layer_size(p) - 1, seq![p.seqlen, p.hidden]),
{
    lemma_body_len(p, 0);
    let k1 = qkv_keys(p);
    let k2 = heads_keys(p);
    let k3 = rope_keys(p);
    let k4 = attention_keys(p);
    let k5 = ff_keys(p);
    lemma_stands_in(keys, k1 + k2 + k3 + k4, k5, b);
    lemma_stands_in(keys, k1 + k2 + k3, k4, b);
    lemma_stands_in(keys, k1 + k2, k3, b);
    lemma_stands_in(keys, k1, k2, b);
    let h = heads_at(p, b);
    let r = rope_at(p, b);
    let a = attention_at(p, b);
    let f = ff_at(p, b);
    assert(keys[r + 0] == k3[0]);
    assert(keys[a + 3] == k4[3] && keys[a + 4] == k4[4]);
    assert(keys[f + (k5.len() - 1)] == k5[k5.len() - 1]);
    let o1 = qkv_ops(p, l, b - 1, b);
    let o2 = heads_ops(p, b + 1, h);
    let o3 = rope_ops(p, l, h, r);
    let o4 = attention_ops(p, l, b - 1, r, a);
    let o5 = ff_ops(p, l, a + 3, f);
    lemma_qkv_launches(env, p, start, keys, l, b);
    lemma_heads_launch(env, p, keys, b + 1, h);
    lemma_rope_launches(env, p, start, keys, l, h, r);
    lemma_attention_launches(env, p, start, keys, l, b - 1, r, a);
    lemma_ff_launches(env, p, start, keys, l, a + 3, f);
    lemma_all_launch(env, keys, o1, o2);
    lemma_all_launch(env, keys, o1 + o2, o3);
    lemma_all_launch(env, keys, o1 + o2 + o3, o4);
    lemma_all_launch(env, keys, o1 + o2 + o3 + o4, o5);
}

proof fn lemma_body_launches(
    env: StepEnv,
    p: StepDims,
    start: usize,
    keys: Seq<SpecKey>,
    l: int,
)
    requires
        model_step(env, p, start),
        0 <= l <= p.layers,
        stands(keys, body_keys(p, l), 0),
    ensures
        all_launch(env, keys, body_ops(p, l)),
        shaped(keys, layer_at(p, l) - 1, seq![p.seqlen, p.hidden]),
    decreases l,
{
    lemma_body_len(p, l);
    if l <= 0 {
        assert(keys[0int + 0int] == body_keys(p, 0)[0]);
        assert(launches(env, keys, body_ops(p, 0)[0])) by {
            reveal(launches);
        }
    } else {
        let front = body_keys(p, l - 1);
        let b = layer_at(p, l - 1);
        lemma_body_len(p, l - 1);
        lemma_stands_in(keys, front, layer_keys(p), 0);
        lemma_body_launches(env, p, start, keys, l - 1);
        lemma_layer_launches(env, p, start, keys, (l - 1) as usize, b);
        lemma_all_launch(env, keys, body_ops(p, l - 1), layer_ops(p, (l - 1) as usize, b));
        assert(l * layer_size(p) == (l - 1) * layer_size(p) + layer_size(p)) by (nonlinear_arith);
    }
}

/// Every operation of a forward step launches: the shapes of its values fit each other
/// and the weights of the model, and there is a kernel or a product for each.
pub proof fn law_forward_step_launches(env: StepEnv, p: StepDims, start: usize)
    requires
        model_step(env, p, start),
    ensures
        forall|k: int|
            0 <= k < step_ops(p).len() ==> op_ready(env, step_keys(p), #[trigger] step_ops(p)[k])
                && op_plan(env, step_keys(p), step_ops(p)[k]) is Ok,
{
    let l = p.layers as int;
    let b = layer_at(p, l);
    let keys = step_keys(p);
    let body = body_ops(p, l);
    let head = head_ops(p, b);
    lemma_fits(p);
    lemma_small(env, p, start);
    lemma_body_len(p, l);
    assert(l * layer_size(p) >= 0) by (nonlinear_arith)
        requires
            l >= 0,
            layer_size(p) >= 0,
    ;
    assert(keys.len() == b + 3);
    assert(stands(keys, body_keys(p, l) + head_keys(p), 0));
    lemma_stands_in(keys, body_keys(p, l), head_keys(p), 0);
    lemma_body_launches(env, p, start, keys, l);
    assert(keys[b + 0] == head_keys(p)[0] && keys[b + 1] == head_keys(p)[1] && keys[b + 2]
        == head_keys(p)[2]);
    lemma_norm(env, keys, b - 1, WeightRef::Norm, p.seqlen, p.hidden, b);
    lemma_last_row(env, keys, b, (p.seqlen - 1) as usize, p.seqlen, p.hidden, b + 1);
    lemma_matvec(env, keys, WeightRef::LmHead, b + 1, b + 2, p.vocab, p.hidden);
    assert(all_launch(env, keys, head));
    lemma_all_launch(env, keys, body, head);
    reveal(launches);
}

/// The sizes of warm-up are those of the model, and it runs on one token from the first
/// position on.
pub open spec fn warm_model(env: StepEnv, p: StepDims, d: WarmDims, rows: WarmRows) -> bool {
    &&& model_step(env, p, 0)
    &&& p.seqlen == 1
    &&& p.layers >= 1
    &&& d.hidden == p.hidden
    &&& d.intermediate == p.inter
    &&& d.heads == p.heads && d.kv_heads == p.kv_heads && d.head_dim == p.head_dim
    &&& d.max_seq_len == env.dims.max_seq_len
    &&& rows.hidden == p.hidden
    &&& rows.qkv == p.attn() + 2 * p.kv()
    &&& rows.head == p.vocab
    &&& attn_sizes(2, 0, env.dims, env.knobs)
}

/// What is warmed has the sizes of the model.
spec fn warm_of(w: WarmModel, d: WarmDims) -> bool {
    match w {
        WarmModel::Embed { .. } => true,
        WarmModel::Matmul { width } => width == d.hidden,
        WarmModel::Matvec { len } => len == d.hidden,
        WarmModel::Norm { width, .. } => width == d.hidden || width == d.head_dim,
        WarmModel::Rope { heads, head_dim, .. } => heads == d.heads && head_dim == d.head_dim,
        WarmModel::CacheUpdate { kv_heads, head_dim, .. } => kv_heads == d.kv_heads && head_dim
            == d.head_dim,
        WarmModel::Attend { q_len, heads, head_dim, .. } => 1 <= q_len <= 2 && heads == d.heads
            && head_dim == d.head_dim,
        WarmModel::FusedPrefill { tokens, heads, kv_heads, head_dim } => tokens == 2 && heads
            == d.heads && kv_heads == d.kv_heads && head_dim == d.head_dim && d.max_seq_len >= 2,
        _ => true,
    }
}

proof fn lemma_warm_rows(env: StepEnv, p: StepDims, d: WarmDims, rows: WarmRows, w: WarmModel)
    requires
        warm_model(env, p, d, rows),
        warm_of(w, d),
        w is Matmul || w is Matvec || w is Norm || w is Add || w is SiluMul || w is GatherRow
            || w is AddNorm,
    ensures
        warm_step_spec(w, rows) matches Some(s) && launches(env, s.keys, s.op),
{
    lemma_fits(p);
    let keys = warm_step_spec(w, rows)->Some_0.keys;
    assert(layer_shaped(env.layers@[0], p));
    match w {
        WarmModel::Matmul { width } => {
            let weight = WeightRef::Layer { layer_idx: 0, slot: LayerWeightSlot::QkvProj };
            lemma_matmul(env, keys, weight, 0, 1, 1, rows.qkv, width);
        },
        WarmModel::Matvec { len } => {
            lemma_matvec(env, keys, WeightRef::LmHead, 0, 1, rows.head, len);
        },
        WarmModel::Norm { width, weight } => {
            let r = match weight {
                NormWeight::Final => WeightRef::Norm,
                NormWeight::Query => WeightRef::Layer {
                    layer_idx: 0,
                    slot: LayerWeightSlot::QNorm,
                },
            };
            lemma_norm(env, keys, 0, r, 1, width, 1);
        },
        WarmModel::Add { width } => {
            lemma_add(env, keys, 0, 1, 2, 1, width);
        },
        WarmModel::SiluMul { width } => {
            lemma_add(env, keys, 0, 1, 2, 1, width);
        },
        WarmModel::GatherRow { width } => {
            lemma_last_row(env, keys, 0, 0, 1, width, 1);
        },
        WarmModel::AddNorm { width } => {
            lemma_add_norm(env, keys, 0, 1, WeightRef::Norm, 1, width, 2, 3);
        },
        _ => {},
    }
}

proof fn lemma_warm_heads(env: StepEnv, p: StepDims, d: WarmDims, rows: WarmRows, w: WarmModel)
    requires
        warm_model(env, p, d, rows),
        warm_of(w, d),
        w is Rope || w is CacheUpdate || w is Attend || w is FusedPrefill,
    ensures
        warm_step_spec(w, rows) matches Some(s) && launches(env, s.keys, s.op),
{
    let keys = warm_step_spec(w, rows)->Some_0.keys;
    assert(has_caches(env, 0));
    match w {
        WarmModel::Rope { .. } => {
            lemma_rotate(env, keys, 0, 1, 1, d.heads);
        },
        WarmModel::CacheUpdate { .. } => {
            lemma_cache_update(env, keys, 0, 0, 1, 1, 0);
        },
        WarmModel::Attend { q_len, .. } => {
            lemma_attend(env, keys, 0, 0, 1, q_len, 0);
        },
        WarmModel::FusedPrefill { tokens, .. } => {
            lemma_fused(env, keys, 0, 0, 3, tokens, 0);
        },
        _ => {},
    }
}

proof fn lemma_warm_token(env: StepEnv, p: StepDims, d: WarmDims, rows: WarmRows, token: u32)
    requires
        warm_model(env, p, d, rows),
    ensures
        warm_step_spec(WarmModel::Embed { token }, rows) matches Some(s) && launches(
            env,
            s.keys,
            s.op,
        ),
{
    reveal(launches);
    let s = warm_step_spec(WarmModel::Embed { token }, rows)->Some_0;
    assert(s.keys[0].shape =~= seq![1usize, p.hidden]);
}

/// What is warmed has the sizes of the model.
proof fn lemma_warm_of(kind: KernelKind, d: WarmDims, eos: Seq<u32>, parts: Seq<Part>, i: int)
    requires
        0 <= i < warm_ops(kind, d, eos, parts).len(),
    ensures
        warm_of(warm_ops(kind, d, eos, parts)[i], d),
{
    if kind == KernelKind::QuantGemv {
        lemma_quant_warm(parts, i);
    }
}

proof fn lemma_warm_launches(
    env: StepEnv,
    p: StepDims,
    d: WarmDims,
    rows: WarmRows,
    kind: KernelKind,
    eos: Seq<u32>,
    parts: Seq<Part>,
    i: int,
)
    requires
        warm_model(env, p, d, rows),
        0 <= i < warm_ops(kind, d, eos, parts).len(),
    ensures
        warm_step_spec(warm_ops(kind, d, eos, parts)[i], rows) matches Some(s) ==> launches(
            env,
            s.keys,
            s.op,
        ),
{
    let w = warm_ops(kind, d, eos, parts)[i];
    lemma_warm_of(kind, d, eos, parts, i);
    match w {
        WarmModel::Embed { token } => {
            lemma_warm_token(env, p, d, rows, token);
        },
        WarmModel::Rope { .. } => {
            lemma_warm_heads(env, p, d, rows, w);
        },
        WarmModel::CacheUpdate { .. } => {
            lemma_warm_heads(env, p, d, rows, w);
        },
        WarmModel::Attend { .. } => {
            lemma_warm_heads(env, p, d, rows, w);
        },
        WarmModel::FusedPrefill { .. } => {
            lemma_warm_heads(env, p, d, rows, w);
        },
        WarmModel::Argmax { .. } => {},
        WarmModel::Call { .. } => {},
        WarmModel::QuantMatvec { .. } => {},
        _ => {
            lemma_warm_rows(env, p, d, rows, w);
        },
    }
}

/// Warm-up of a model with its own weights launches: every operation that compiles the
/// kernels of a family is ready and launches something.
pub proof fn law_warm_up_launches(
    env: StepEnv,
    p: StepDims,
    d: WarmDims,
    rows: WarmRows,
    kind: KernelKind,
    eos: Seq<u32>,
    parts: Seq<Part>,
    i: int,
)
    requires
        warm_model(env, p, d, rows),
        0 <= i < warm_ops(kind, d, eos, parts).len(),
    ensures
        warm_step_spec(warm_ops(kind, d, eos, parts)[i], rows) matches Some(s) ==> op_ready(
            env,
            s.keys,
            s.op,
        ) && op_plan(env, s.keys, s.op) is Ok,
{
    lemma_warm_launches(env, p, d, rows, kind, eos, parts, i);
    match warm_step_spec(warm_ops(kind, d, eos, parts)[i], rows) {
        Some(s) => {
            lemma_launches(env, s.keys, s.op);
        },
        None => {},
    }
}

proof fn lemma_launches(env: StepEnv, keys: Seq<SpecKey>, op: OpModel)
    requires
        launches(env, keys, op),
    ensures
        op_ready(env, keys, op),
        op_plan(env, keys, op) is Ok,
{
    reveal(launches);
}

/// What compiles products of parts is no operation of a step.
proof fn lemma_quant_warm(parts: Seq<Part>, i: int)
    requires
        0 <= i < quant_warm(parts).len(),
    ensures
        quant_warm(parts)[i] is QuantMatvec,
    decreases parts.len(),
{
    if parts.len() > 0 && i < quant_warm(parts.drop_last()).len() {
        lemma_quant_warm(parts.drop_last(), i);
    }
}

} // verus!
