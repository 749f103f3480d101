//! The operations of one forward step of a Qwen3 model.
use crate::config::Qwen3Config;
use crate::forward_laws::law_forward_step_is_good;
use crate::graph::{
    half_key, op_models, spec_keys, GraphOp, LayerWeightSlot, Op, OpModel, SpecKey, TensorRef,
    TensorSpec, ValueId, WeightRef,
};
use crate::pool_plan::GraphError;
use crate::step_graph::StepGraph;
use crate::weights::{DeviceBuffer, MatrixWeight};
use vstd::prelude::*;

verus! {

/// The weights of one layer.
#[derive(Debug)]
pub struct LayerWeights {
    pub input_layernorm: DeviceBuffer,
    pub post_attention_layernorm: DeviceBuffer,
    pub q_norm: DeviceBuffer,
    pub k_norm: DeviceBuffer,
    pub qkv_proj: MatrixWeight,
    pub o_proj: MatrixWeight,
    pub gate_up_proj: MatrixWeight,
    pub down_proj: MatrixWeight,
}

impl LayerWeights {
    /// The weight in a place for a norm; `None` in a place for a projection.
    pub open spec fn norm_at(self, slot: LayerWeightSlot) -> Option<DeviceBuffer> {
        match slot {
            LayerWeightSlot::InputLayerNorm => Some(self.input_layernorm),
            LayerWeightSlot::PostAttentionLayerNorm => Some(self.post_attention_layernorm),
            LayerWeightSlot::QNorm => Some(self.q_norm),
            LayerWeightSlot::KNorm => Some(self.k_norm),
            _ => None,
        }
    }

    /// The weight in a place for a projection; `None` in a place for a norm.
    pub open spec fn matrix_at(self, slot: LayerWeightSlot) -> Option<MatrixWeight> {
        match slot {
            LayerWeightSlot::QkvProj => Some(self.qkv_proj),
            LayerWeightSlot::OProj => Some(self.o_proj),
            LayerWeightSlot::GateUpProj => Some(self.gate_up_proj),
            LayerWeightSlot::DownProj => Some(self.down_proj),
            _ => None,
        }
    }

    /// The weight in a place for a norm.
    pub fn norm(&self, slot: LayerWeightSlot) -> (r: Option<&DeviceBuffer>)
        ensures
            match r {
                Some(b) => self.norm_at(slot) == Some(*b),
                None => self.norm_at(slot) is None,
            },
    {
        match slot {
            LayerWeightSlot::InputLayerNorm => Some(&self.input_layernorm),
            LayerWeightSlot::PostAttentionLayerNorm => Some(&self.post_attention_layernorm),
            LayerWeightSlot::QNorm => Some(&self.q_norm),
            LayerWeightSlot::KNorm => Some(&self.k_norm),
            _ => None,
        }
    }

    /// The weight in a place for a projection.
    pub fn matrix(&self, slot: LayerWeightSlot) -> (r: Option<&MatrixWeight>)
        ensures
            match r {
                Some(m) => self.matrix_at(slot) == Some(*m),
                None => self.matrix_at(slot) is None,
            },
    {
        match slot {
            LayerWeightSlot::QkvProj => Some(&self.qkv_proj),
            LayerWeightSlot::OProj => Some(&self.o_proj),
            LayerWeightSlot::GateUpProj => Some(&self.gate_up_proj),
            LayerWeightSlot::DownProj => Some(&self.down_proj),
            _ => None,
        }
    }
}

/// The sizes of a step.
#[derive(Clone, Copy, Debug, PartialEq, Eq, Structural)]
pub struct StepDims {
    pub seqlen: usize,
    pub hidden: usize,
    pub heads: usize,
    pub kv_heads: usize,
    pub head_dim: usize,
    pub inter: usize,
    pub vocab: usize,
    pub layers: usize,
    /// Whether norm, rotary embedding and cache update of a prefill are one operation.
    pub fused: bool,
}

impl StepDims {
    /// Width of all query heads.
    pub open spec fn attn(self) -> usize {
        (self.heads * self.head_dim) as usize
    }

    /// Width of all key or value heads.
    pub open spec fn kv(self) -> usize {
        (self.kv_heads * self.head_dim) as usize
    }

    /// Whether the step is one token, whose projections are merged.
    pub open spec fn decode(self) -> bool {
        self.seqlen == 1
    }

    /// Whether norm, rotary embedding and cache update are one operation.
    pub open spec fn fuses(self) -> bool {
        self.seqlen > 1 && self.fused
    }
}

/// The value in place `n`.
pub open spec fn vid(n: int) -> ValueId {
    ValueId(n as usize)
}

/// A read of the value in place `n`.
pub open spec fn rv(n: int) -> TensorRef {
    TensorRef::Value(vid(n))
}

/// A read of a weight of layer `l`.
pub open spec fn lw(l: usize, slot: LayerWeightSlot) -> TensorRef {
    TensorRef::Weight(WeightRef::Layer { layer_idx: l, slot })
}

/// Input norm and projection to queries, keys and values: `b` norm, `b + 1` queries,
/// `b + 2` keys, `b + 3` values, and for one token `b + 4` all three merged.
pub open spec fn qkv_keys(p: StepDims) -> Seq<SpecKey> {
    let front = seq![
        half_key(seq![p.seqlen, p.hidden]),
        half_key(seq![p.seqlen, p.attn()]),
        half_key(seq![p.seqlen, p.kv()]),
        half_key(seq![p.seqlen, p.kv()]),
    ];
    if p.decode() {
        front.push(half_key(seq![p.seqlen, (p.attn() + 2 * p.kv()) as usize]))
    } else {
        front
    }
}

/// The operations of `qkv_keys`: a prefill multiplies by three row slices of the merged
/// weight, one token by all of it and cuts the product.
pub open spec fn qkv_ops(p: StepDims, l: usize, hidden: int, b: int) -> Seq<OpModel> {
    let norm = Op::RmsNorm {
        x: rv(hidden),
        weight: lw(l, LayerWeightSlot::InputLayerNorm),
        n: p.hidden,
        out: vid(b),
    };
    let w = lw(l, LayerWeightSlot::QkvProj);
    let kv_at = p.attn();
    let v_at = (p.attn() + p.kv()) as usize;
    if p.decode() {
        seq![
            norm,
            Op::MatMul { matrix: w, rhs: rv(b), out: vid(b + 4) },
            Op::SliceCols { input: rv(b + 4), col_offset: 0, out_cols: p.attn(), out: vid(b + 1) },
            Op::SliceCols {
                input: rv(b + 4),
                col_offset: kv_at,
                out_cols: p.kv(),
                out: vid(b + 2),
            },
            Op::SliceCols { input: rv(b + 4), col_offset: v_at, out_cols: p.kv(), out: vid(b + 3) },
        ]
    } else {
        seq![
            norm,
            Op::MatMulSlice {
                matrix: w,
                row_offset: 0,
                out_features: p.attn(),
                rhs: rv(b),
                out: vid(b + 1),
            },
            Op::MatMulSlice {
                matrix: w,
                row_offset: kv_at,
                out_features: p.kv(),
                rhs: rv(b),
                out: vid(b + 2),
            },
            Op::MatMulSlice {
                matrix: w,
                row_offset: v_at,
                out_features: p.kv(),
                rhs: rv(b),
                out: vid(b + 3),
            },
        ]
    }
}

/// Queries `b`, keys `b + 1` and values `b + 2` by heads.
pub open spec fn heads_keys(p: StepDims) -> Seq<SpecKey> {
    seq![
        half_key(seq![p.seqlen, p.heads, p.head_dim]),
        half_key(seq![p.seqlen, p.kv_heads, p.head_dim]),
        half_key(seq![p.seqlen, p.kv_heads, p.head_dim]),
    ]
}

/// The operations of `heads_keys`; `q` is the place of the flat queries.
pub open spec fn heads_ops(p: StepDims, q: int, b: int) -> Seq<OpModel> {
    seq![
        Op::Reshape {
            input: rv(q),
            shape: seq![p.seqlen, p.heads, p.head_dim],
            out: vid(b),
        },
        Op::Reshape {
            input: rv(q + 1),
            shape: seq![p.seqlen, p.kv_heads, p.head_dim],
            out: vid(b + 1),
        },
        Op::Reshape {
            input: rv(q + 2),
            shape: seq![p.seqlen, p.kv_heads, p.head_dim],
            out: vid(b + 2),
        },
    ]
}

/// Rotated queries `b`, and unless fused the steps on the way to them.
pub open spec fn rope_keys(p: StepDims) -> Seq<SpecKey> {
    let q = half_key(seq![p.seqlen, p.heads, p.head_dim]);
    let k = half_key(seq![p.seqlen, p.kv_heads, p.head_dim]);
    let q_flat = half_key(seq![(p.seqlen * p.heads) as usize, p.head_dim]);
    let k_flat = half_key(seq![(p.seqlen * p.kv_heads) as usize, p.head_dim]);
    if p.fuses() {
        seq![q]
    } else {
        seq![q, q_flat, k_flat, q_flat, k_flat, q, k, k]
    }
}

/// Norm and rotary embedding of queries and keys, and the cache update; `h` is the
/// place of the queries by heads.
pub open spec fn rope_ops(p: StepDims, l: usize, h: int, b: int) -> Seq<OpModel> {
    if p.fuses() {
        seq![
            Op::QkNormRopeKvPrefill {
                layer_idx: l,
                q: rv(h),
                k: rv(h + 1),
                v: rv(h + 2),
                out: vid(b),
            },
        ]
    } else {
        seq![
            Op::Reshape {
                input: rv(h),
                shape: seq![(p.seqlen * p.heads) as usize, p.head_dim],
                out: vid(b + 1),
            },
            Op::Reshape {
                input: rv(h + 1),
                shape: seq![(p.seqlen * p.kv_heads) as usize, p.head_dim],
                out: vid(b + 2),
            },
            Op::RmsNorm {
                x: rv(b + 1),
                weight: lw(l, LayerWeightSlot::QNorm),
                n: p.head_dim,
                out: vid(b + 3),
            },
            Op::RmsNorm {
                x: rv(b + 2),
                weight: lw(l, LayerWeightSlot::KNorm),
                n: p.head_dim,
                out: vid(b + 4),
            },
            Op::Reshape {
                input: rv(b + 3),
                shape: seq![p.seqlen, p.heads, p.head_dim],
                out: vid(b + 5),
            },
            Op::Reshape {
                input: rv(b + 4),
                shape: seq![p.seqlen, p.kv_heads, p.head_dim],
                out: vid(b + 6),
            },
            Op::Rope { x: rv(b + 5), out: vid(b) },
            Op::Rope { x: rv(b + 6), out: vid(b + 7) },
            Op::KvCacheUpdate { layer_idx: l, new_k: rv(b + 7), new_v: rv(h + 2) },
        ]
    }
}

/// Attention `b`, the same flat `b + 1`, its projection `b + 2`, the residual sum
/// `b + 3` and its norm `b + 4`.
pub open spec fn attention_keys(p: StepDims) -> Seq<SpecKey> {
    seq![
        half_key(seq![p.seqlen, p.heads, p.head_dim]),
        half_key(seq![p.seqlen, p.attn()]),
        half_key(seq![p.seqlen, p.hidden]),
        half_key(seq![p.seqlen, p.hidden]),
        half_key(seq![p.seqlen, p.hidden]),
    ]
}

/// The operations of `attention_keys`; `q` is the place of the rotated queries.
pub open spec fn attention_ops(p: StepDims, l: usize, hidden: int, q: int, b: int) -> Seq<OpModel> {
    seq![
        Op::Attention { layer_idx: l, q: rv(q), out: vid(b) },
        Op::Reshape { input: rv(b), shape: seq![p.seqlen, p.attn()], out: vid(b + 1) },
        Op::MatMul { matrix: lw(l, LayerWeightSlot::OProj), rhs: rv(b + 1), out: vid(b + 2) },
        Op::AddRmsNorm {
            residual: rv(hidden),
            x: rv(b + 2),
            weight: lw(l, LayerWeightSlot::PostAttentionLayerNorm),
            n: p.hidden,
            out: vid(b + 4),
            residual_out: vid(b + 3),
        },
    ]
}

/// Gate `b` and up projection `b + 1`, for one token also both merged; then the gated
/// product, the down projection and the next hidden state.
pub open spec fn ff_keys(p: StepDims) -> Seq<SpecKey> {
    let wide = half_key(seq![p.seqlen, p.inter]);
    let narrow = half_key(seq![p.seqlen, p.hidden]);
    if p.decode() {
        seq![
            wide,
            wide,
            half_key(seq![p.seqlen, (2 * p.inter) as usize]),
            wide,
            narrow,
            narrow,
        ]
    } else {
        seq![wide, wide, wide, narrow, narrow]
    }
}

/// The operations of `ff_keys`; `sum` is the place of the residual sum, its norm stands
/// right after it.
pub open spec fn ff_ops(p: StepDims, l: usize, sum: int, b: int) -> Seq<OpModel> {
    let w = lw(l, LayerWeightSlot::GateUpProj);
    let down = lw(l, LayerWeightSlot::DownProj);
    if p.decode() {
        seq![
            Op::MatMul { matrix: w, rhs: rv(sum + 1), out: vid(b + 2) },
            Op::SliceCols { input: rv(b + 2), col_offset: 0, out_cols: p.inter, out: vid(b) },
            Op::SliceCols {
                input: rv(b + 2),
                col_offset: p.inter,
                out_cols: p.inter,
                out: vid(b + 1),
            },
            Op::SiluMul { gate: rv(b), up: rv(b + 1), out: vid(b + 3) },
            Op::MatMul { matrix: down, rhs: rv(b + 3), out: vid(b + 4) },
            Op::Add { lhs: rv(sum), rhs: rv(b + 4), out: vid(b + 5) },
        ]
    } else {
        seq![
            Op::MatMulSlice {
                matrix: w,
                row_offset: 0,
                out_features: p.inter,
                rhs: rv(sum + 1),
                out: vid(b),
            },
            Op::MatMulSlice {
                matrix: w,
                row_offset: p.inter,
                out_features: p.inter,
                rhs: rv(sum + 1),
                out: vid(b + 1),
            },
            Op::SiluMul { gate: rv(b), up: rv(b + 1), out: vid(b + 2) },
            Op::MatMul { matrix: down, rhs: rv(b + 2), out: vid(b + 3) },
            Op::Add { lhs: rv(sum), rhs: rv(b + 3), out: vid(b + 4) },
        ]
    }
}

/// Values of one layer.
pub open spec fn layer_keys(p: StepDims) -> Seq<SpecKey> {
    qkv_keys(p) + heads_keys(p) + rope_keys(p) + attention_keys(p) + ff_keys(p)
}

/// Where the values by heads begin, in a layer whose values begin at `b`.
pub open spec fn heads_at(p: StepDims, b: int) -> int {
    b + if p.decode() {
        5int
    } else {
        4
    }
}

/// Where the rotated queries stand.
pub open spec fn rope_at(p: StepDims, b: int) -> int {
    heads_at(p, b) + 3
}

/// Where the attention stands.
pub open spec fn attention_at(p: StepDims, b: int) -> int {
    rope_at(p, b) + if p.fuses() {
        1int
    } else {
        8
    }
}

/// Where the feed-forward part begins.
pub open spec fn ff_at(p: StepDims, b: int) -> int {
    attention_at(p, b) + 5
}

/// Operations of layer `l`, whose values begin at `b`, right after the hidden state.
pub open spec fn layer_ops(p: StepDims, l: usize, b: int) -> Seq<OpModel> {
    qkv_ops(p, l, b - 1, b) + heads_ops(p, b + 1, heads_at(p, b)) + rope_ops(
        p,
        l,
        heads_at(p, b),
        rope_at(p, b),
    ) + attention_ops(p, l, b - 1, rope_at(p, b), attention_at(p, b)) + ff_ops(
        p,
        l,
        attention_at(p, b) + 3,
        ff_at(p, b),
    )
}

/// Values of one layer: how many.
pub open spec fn layer_size(p: StepDims) -> int {
    if p.decode() {
        27
    } else if p.fuses() {
        18
    } else {
        25
    }
}

/// Where the values of layer `l` begin.
pub open spec fn layer_at(p: StepDims, l: int) -> int {
    1 + l * layer_size(p)
}

/// Values of the embedding and the first `l` layers.
pub open spec fn body_keys(p: StepDims, l: int) -> Seq<SpecKey>
    decreases l,
{
    if l <= 0 {
        seq![half_key(seq![p.seqlen, p.hidden])]
    } else {
        body_keys(p, l - 1) + layer_keys(p)
    }
}

/// Operations of the embedding and the first `l` layers.
pub open spec fn body_ops(p: StepDims, l: int) -> Seq<OpModel>
    decreases l,
{
    if l <= 0 {
        seq![Op::EmbeddingBatch { out: vid(0) }]
    } else {
        body_ops(p, l - 1) + layer_ops(p, (l - 1) as usize, layer_at(p, l - 1))
    }
}

/// The final norm `b`, its last row `b + 1` and the logits `b + 2`.
pub open spec fn head_keys(p: StepDims) -> Seq<SpecKey> {
    seq![
        half_key(seq![p.seqlen, p.hidden]),
        half_key(seq![p.hidden]),
        half_key(seq![p.vocab]),
    ]
}

/// The operations of `head_keys`.
pub open spec fn head_ops(p: StepDims, b: int) -> Seq<OpModel> {
    seq![
        Op::RmsNorm {
            x: rv(b - 1),
            weight: TensorRef::Weight(WeightRef::Norm),
            n: p.hidden,
            out: vid(b),
        },
        Op::GatherRow { src: rv(b), row_idx: (p.seqlen - 1) as usize, out: vid(b + 1) },
        Op::MatVec {
            matrix: TensorRef::Weight(WeightRef::LmHead),
            vector: rv(b + 1),
            out: vid(b + 2),
        },
    ]
}

/// All values of a step.
pub open spec fn step_keys(p: StepDims) -> Seq<SpecKey> {
    body_keys(p, p.layers as int) + head_keys(p)
}

/// All operations of a step.
pub open spec fn step_ops(p: StepDims) -> Seq<OpModel> {
    body_ops(p, p.layers as int) + head_ops(p, layer_at(p, p.layers as int))
}

/// The logits of a step.
pub open spec fn step_result(p: StepDims) -> ValueId {
    vid(layer_at(p, p.layers as int) + 2)
}

/// The first `l` layers hold `l` times the values of one.
pub proof fn lemma_body_len(p: StepDims, l: int)
    requires
        l >= 0,
    ensures
        layer_keys(p).len() == layer_size(p),
        body_keys(p, l).len() == layer_at(p, l),
    decreases l,
{
    if l > 0 {
        lemma_body_len(p, l - 1);
        assert(l * layer_size(p) == (l - 1) * layer_size(p) + layer_size(p)) by (nonlinear_arith);
    }
}

/// The widths of a step side by side.
pub open spec fn width(p: StepDims) -> int {
    p.hidden + p.heads * p.head_dim + 2 * (p.kv_heads * p.head_dim) + 2 * p.inter
}

/// The values of a step can be counted in bytes, all together.
pub open spec fn fits(p: StepDims) -> bool {
    &&& p.seqlen >= 1
    &&& p.hidden >= 1
    &&& p.head_dim >= 1
    &&& p.layers <= crate::config::MAX_LAYERS
    &&& 2 * (p.seqlen * width(p)) * (56 * (p.layers + 1)) + 2 * p.vocab <= usize::MAX
}

/// What `fits` says of single sizes.
pub proof fn lemma_fits(p: StepDims)
    requires
        fits(p),
    ensures
        p.seqlen * width(p) <= usize::MAX,
        2 * (p.seqlen * width(p)) <= usize::MAX,
        width(p) <= p.seqlen * width(p),
        p.attn() == p.heads * p.head_dim,
        p.kv() == p.kv_heads * p.head_dim,
        p.attn() + 2 * p.kv() <= usize::MAX,
        2 * p.inter <= usize::MAX,
        p.seqlen * p.heads <= usize::MAX,
        p.seqlen * p.kv_heads <= usize::MAX,
        layer_at(p, p.layers as int) + 3 <= usize::MAX,
        p.attn() >= 0 && p.kv() >= 0,
{
    let w = width(p);
    let a = p.heads * p.head_dim;
    let k = p.kv_heads * p.head_dim;
    assert(a >= 0 && k >= 0) by (nonlinear_arith)
        requires
            a == p.heads * p.head_dim,
            k == p.kv_heads * p.head_dim,
            p.heads >= 0,
            p.kv_heads >= 0,
            p.head_dim >= 0,
    ;
    let sw = p.seqlen * w;
    assert(sw >= w) by (nonlinear_arith)
        requires
            sw == p.seqlen * w,
            p.seqlen >= 1,
            w >= 1,
    ;
    let n = 56 * (p.layers + 1);
    assert(2 * sw * n >= 2 * sw) by (nonlinear_arith)
        requires
            sw >= 1,
            n >= 1,
    ;
    assert(p.seqlen * p.heads <= sw) by (nonlinear_arith)
        requires
            sw == p.seqlen * w,
            w >= p.heads * p.head_dim,
            p.head_dim >= 1,
            p.heads >= 0,
            p.seqlen >= 1,
    ;
    assert(p.seqlen * p.kv_heads <= sw) by (nonlinear_arith)
        requires
            sw == p.seqlen * w,
            w >= p.kv_heads * p.head_dim,
            p.head_dim >= 1,
            p.kv_heads >= 0,
            p.seqlen >= 1,
    ;
    assert(p.layers * layer_size(p) <= 4096 * 27) by (nonlinear_arith)
        requires
            0 <= p.layers <= 4096,
            0 <= layer_size(p) <= 27,
    ;
}

/// A step as it is built.
struct Builder {
    specs: Vec<TensorSpec>,
    ops: Vec<GraphOp>,
}

impl Builder {
    spec fn keys(&self) -> Seq<SpecKey> {
        spec_keys(self.specs@)
    }

    spec fn models(&self) -> Seq<OpModel> {
        op_models(self.ops@)
    }

    /// Adds a value of rank 1.
    fn value1(&mut self, a: usize) -> (r: ValueId)
        ensures
            r == vid(old(self).keys().len() as int),
            r.0 == old(self).keys().len(),
            final(self).keys() == old(self).keys().push(half_key(seq![a])),
            final(self).models() == old(self).models(),
    {
        let mut shape: Vec<usize> = Vec::new();
        shape.push(a);
        assert(shape@ =~= seq![a]);
        push_value(&mut self.specs, shape)
    }

    /// Adds a value of rank 2.
    fn value2(&mut self, a: usize, b: usize) -> (r: ValueId)
        ensures
            r == vid(old(self).keys().len() as int),
            r.0 == old(self).keys().len(),
            final(self).keys() == old(self).keys().push(half_key(seq![a, b])),
            final(self).models() == old(self).models(),
    {
        push_value(&mut self.specs, shape2(a, b))
    }

    /// Adds a value of rank 3.
    fn value3(&mut self, a: usize, b: usize, c: usize) -> (r: ValueId)
        ensures
            r == vid(old(self).keys().len() as int),
            r.0 == old(self).keys().len(),
            final(self).keys() == old(self).keys().push(half_key(seq![a, b, c])),
            final(self).models() == old(self).models(),
    {
        push_value(&mut self.specs, shape3(a, b, c))
    }

    /// Adds an operation.
    fn op(&mut self, op: GraphOp)
        ensures
            final(self).keys() == old(self).keys(),
            final(self).models() == old(self).models().push(op@),
    {
        self.ops.push(op);
        assert(self.models() =~= old(self).models().push(op@));
    }
}

fn shape2(a: usize, b: usize) -> (r: Vec<usize>)
    ensures
        r@ == seq![a, b],
{
    let mut shape: Vec<usize> = Vec::new();
    shape.push(a);
    shape.push(b);
    assert(shape@ =~= seq![a, b]);
    shape
}

fn shape3(a: usize, b: usize, c: usize) -> (r: Vec<usize>)
    ensures
        r@ == seq![a, b, c],
{
    let mut shape: Vec<usize> = Vec::new();
    shape.push(a);
    shape.push(b);
    shape.push(c);
    assert(shape@ =~= seq![a, b, c]);
    shape
}

/// Adds a half-precision value of this shape.
pub fn push_value(specs: &mut Vec<TensorSpec>, shape: Vec<usize>) -> (r: ValueId)
    ensures
        r == vid(old(specs)@.len() as int),
        r.0 == old(specs)@.len(),
        spec_keys(final(specs)@) == spec_keys(old(specs)@).push(half_key(shape@)),
{
    let id = ValueId(specs.len());
    let ghost key = half_key(shape@);
    specs.push(TensorSpec::half(shape));
    assert(spec_keys(specs@) =~= spec_keys(old(specs)@).push(key));
    id
}

fn layer_weight(layer_idx: usize, slot: LayerWeightSlot) -> (r: TensorRef)
    ensures
        r == lw(layer_idx, slot),
{
    TensorRef::Weight(WeightRef::Layer { layer_idx, slot })
}

/// Builds the input norm and the projection to queries, keys and values.
fn build_qkv(g: &mut Builder, p: StepDims, l: usize, hidden: ValueId)
    requires
        fits(p),
    ensures
        final(g).keys() == old(g).keys() + qkv_keys(p),
        final(g).models() == old(g).models() + qkv_ops(
            p,
            l,
            hidden.0 as int,
            old(g).keys().len() as int,
        ),
{
    proof {
        lemma_fits(p);
    }
    let attn: usize = p.heads * p.head_dim;
    let kv: usize = p.kv_heads * p.head_dim;
    let ghost b = g.keys().len() as int;
    let ghost keys = g.keys();
    let ghost models = g.models();
    let normed = g.value2(p.seqlen, p.hidden);
    g.op(
        Op::RmsNorm {
            x: TensorRef::Value(hidden),
            weight: layer_weight(l, LayerWeightSlot::InputLayerNorm),
            n: p.hidden,
            out: normed,
        },
    );
    let q_2d = g.value2(p.seqlen, attn);
    let k_2d = g.value2(p.seqlen, kv);
    let v_2d = g.value2(p.seqlen, kv);
    if p.seqlen > 1 {
        g.op(
            Op::MatMulSlice {
                matrix: layer_weight(l, LayerWeightSlot::QkvProj),
                row_offset: 0,
                out_features: attn,
                rhs: TensorRef::Value(normed),
                out: q_2d,
            },
        );
        g.op(
            Op::MatMulSlice {
                matrix: layer_weight(l, LayerWeightSlot::QkvProj),
                row_offset: attn,
                out_features: kv,
                rhs: TensorRef::Value(normed),
                out: k_2d,
            },
        );
        g.op(
            Op::MatMulSlice {
                matrix: layer_weight(l, LayerWeightSlot::QkvProj),
                row_offset: attn + kv,
                out_features: kv,
                rhs: TensorRef::Value(normed),
                out: v_2d,
            },
        );
    } else {
        let merged = g.value2(p.seqlen, attn + 2 * kv);
        g.op(
            Op::MatMul {
                matrix: layer_weight(l, LayerWeightSlot::QkvProj),
                rhs: TensorRef::Value(normed),
                out: merged,
            },
        );
        g.op(
            Op::SliceCols {
                input: TensorRef::Value(merged),
                col_offset: 0,
                out_cols: attn,
                out: q_2d,
            },
        );
        g.op(
            Op::SliceCols {
                input: TensorRef::Value(merged),
                col_offset: attn,
                out_cols: kv,
                out: k_2d,
            },
        );
        g.op(
            Op::SliceCols {
                input: TensorRef::Value(merged),
                col_offset: attn + kv,
                out_cols: kv,
                out: v_2d,
            },
        );
    }
    assert(g.keys() =~= keys + qkv_keys(p));
    assert(g.models() =~= models + qkv_ops(p, l, hidden.0 as int, b));
}

/// Builds queries, keys and values by heads; `q_2d` is the place of the flat queries.
fn build_heads(g: &mut Builder, p: StepDims, q_2d: usize)
    requires
        q_2d + 2 <= usize::MAX,
    ensures
        final(g).keys() == old(g).keys() + heads_keys(p),
        final(g).models() == old(g).models() + heads_ops(
            p,
            q_2d as int,
            old(g).keys().len() as int,
        ),
{
    let ghost b = g.keys().len() as int;
    let ghost keys = g.keys();
    let ghost models = g.models();
    let q_3d = g.value3(p.seqlen, p.heads, p.head_dim);
    let k_3d = g.value3(p.seqlen, p.kv_heads, p.head_dim);
    let v_3d = g.value3(p.seqlen, p.kv_heads, p.head_dim);
    g.op(
        Op::Reshape {
            input: TensorRef::Value(ValueId(q_2d)),
            shape: shape3(p.seqlen, p.heads, p.head_dim),
            out: q_3d,
        },
    );
    g.op(
        Op::Reshape {
            input: TensorRef::Value(ValueId(q_2d + 1)),
            shape: shape3(p.seqlen, p.kv_heads, p.head_dim),
            out: k_3d,
        },
    );
    g.op(
        Op::Reshape {
            input: TensorRef::Value(ValueId(q_2d + 2)),
            shape: shape3(p.seqlen, p.kv_heads, p.head_dim),
            out: v_3d,
        },
    );
    assert(g.keys() =~= keys + heads_keys(p));
    assert(g.models() =~= models + heads_ops(p, q_2d as int, b));
}

/// Builds norm and rotary embedding of queries and keys, and the cache update; `q_3d`
/// is the place of the queries by heads.
fn build_rope(g: &mut Builder, p: StepDims, l: usize, q_3d: usize)
    requires
        fits(p),
        q_3d + 2 <= usize::MAX,
    ensures
        final(g).keys() == old(g).keys() + rope_keys(p),
        final(g).models() == old(g).models() + rope_ops(
            p,
            l,
            q_3d as int,
            old(g).keys().len() as int,
        ),
{
    proof {
        lemma_fits(p);
    }
    let ghost b = g.keys().len() as int;
    let ghost keys = g.keys();
    let ghost models = g.models();
    let q = TensorRef::Value(ValueId(q_3d));
    let k = TensorRef::Value(ValueId(q_3d + 1));
    let v = TensorRef::Value(ValueId(q_3d + 2));
    let q_rope = g.value3(p.seqlen, p.heads, p.head_dim);
    if p.seqlen > 1 && p.fused {
        g.op(Op::QkNormRopeKvPrefill { layer_idx: l, q, k, v, out: q_rope });
    } else {
        let q_rows: usize = p.seqlen * p.heads;
        let k_rows: usize = p.seqlen * p.kv_heads;
        let q_flat = g.value2(q_rows, p.head_dim);
        let k_flat = g.value2(k_rows, p.head_dim);
        g.op(Op::Reshape { input: q, shape: shape2(q_rows, p.head_dim), out: q_flat });
        g.op(Op::Reshape { input: k, shape: shape2(k_rows, p.head_dim), out: k_flat });
        let q_norm_flat = g.value2(q_rows, p.head_dim);
        let k_norm_flat = g.value2(k_rows, p.head_dim);
        g.op(
            Op::RmsNorm {
                x: TensorRef::Value(q_flat),
                weight: layer_weight(l, LayerWeightSlot::QNorm),
                n: p.head_dim,
                out: q_norm_flat,
            },
        );
        g.op(
            Op::RmsNorm {
                x: TensorRef::Value(k_flat),
                weight: layer_weight(l, LayerWeightSlot::KNorm),
                n: p.head_dim,
                out: k_norm_flat,
            },
        );
        let q_rope_in = g.value3(p.seqlen, p.heads, p.head_dim);
        let k_rope_in = g.value3(p.seqlen, p.kv_heads, p.head_dim);
        g.op(
            Op::Reshape {
                input: TensorRef::Value(q_norm_flat),
                shape: shape3(p.seqlen, p.heads, p.head_dim),
                out: q_rope_in,
            },
        );
        g.op(
            Op::Reshape {
                input: TensorRef::Value(k_norm_flat),
                shape: shape3(p.seqlen, p.kv_heads, p.head_dim),
                out: k_rope_in,
            },
        );
        let k_rope = g.value3(p.seqlen, p.kv_heads, p.head_dim);
        g.op(Op::Rope { x: TensorRef::Value(q_rope_in), out: q_rope });
        g.op(Op::Rope { x: TensorRef::Value(k_rope_in), out: k_rope });
        g.op(Op::KvCacheUpdate { layer_idx: l, new_k: TensorRef::Value(k_rope), new_v: v });
    }
    assert(g.keys() =~= keys + rope_keys(p));
    assert(g.models() =~= models + rope_ops(p, l, q_3d as int, b));
}

/// Builds the attention, its projection and the residual sum with its norm.
fn build_attention(g: &mut Builder, p: StepDims, l: usize, hidden: ValueId, q_rope: ValueId)
    requires
        fits(p),
    ensures
        final(g).keys() == old(g).keys() + attention_keys(p),
        final(g).models() == old(g).models() + attention_ops(
            p,
            l,
            hidden.0 as int,
            q_rope.0 as int,
            old(g).keys().len() as int,
        ),
{
    proof {
        lemma_fits(p);
    }
    let attn: usize = p.heads * p.head_dim;
    let ghost b = g.keys().len() as int;
    let ghost keys = g.keys();
    let ghost models = g.models();
    let attn_3d = g.value3(p.seqlen, p.heads, p.head_dim);
    g.op(Op::Attention { layer_idx: l, q: TensorRef::Value(q_rope), out: attn_3d });
    let attn_2d = g.value2(p.seqlen, attn);
    g.op(
        Op::Reshape {
            input: TensorRef::Value(attn_3d),
            shape: shape2(p.seqlen, attn),
            out: attn_2d,
        },
    );
    let attn_proj = g.value2(p.seqlen, p.hidden);
    g.op(
        Op::MatMul {
            matrix: layer_weight(l, LayerWeightSlot::OProj),
            rhs: TensorRef::Value(attn_2d),
            out: attn_proj,
        },
    );
    let hidden_after_attn = g.value2(p.seqlen, p.hidden);
    let ff_normed = g.value2(p.seqlen, p.hidden);
    g.op(
        Op::AddRmsNorm {
            residual: TensorRef::Value(hidden),
            x: TensorRef::Value(attn_proj),
            weight: layer_weight(l, LayerWeightSlot::PostAttentionLayerNorm),
            n: p.hidden,
            out: ff_normed,
            residual_out: hidden_after_attn,
        },
    );
    assert(g.keys() =~= keys + attention_keys(p));
    assert(g.models() =~= models + attention_ops(
        p,
        l,
        hidden.0 as int,
        q_rope.0 as int,
        b,
    ));
}

/// Builds the feed-forward part; `sum` is the place of the residual sum.
fn build_ff(g: &mut Builder, p: StepDims, l: usize, sum: usize) -> (r: ValueId)
    requires
        fits(p),
        sum + 1 <= usize::MAX,
    ensures
        final(g).keys() == old(g).keys() + ff_keys(p),
        final(g).models() == old(g).models() + ff_ops(
            p,
            l,
            sum as int,
            old(g).keys().len() as int,
        ),
        r.0 == final(g).keys().len() - 1,
{
    proof {
        lemma_fits(p);
    }
    let ghost b = g.keys().len() as int;
    let ghost keys = g.keys();
    let ghost models = g.models();
    let hidden_after_attn = TensorRef::Value(ValueId(sum));
    let ff_normed = TensorRef::Value(ValueId(sum + 1));
    let gate = g.value2(p.seqlen, p.inter);
    let up = g.value2(p.seqlen, p.inter);
    if p.seqlen > 1 {
        g.op(
            Op::MatMulSlice {
                matrix: layer_weight(l, LayerWeightSlot::GateUpProj),
                row_offset: 0,
                out_features: p.inter,
                rhs: ff_normed,
                out: gate,
            },
        );
        g.op(
            Op::MatMulSlice {
                matrix: layer_weight(l, LayerWeightSlot::GateUpProj),
                row_offset: p.inter,
                out_features: p.inter,
                rhs: ff_normed,
                out: up,
            },
        );
    } else {
        let merged = g.value2(p.seqlen, 2 * p.inter);
        g.op(
            Op::MatMul {
                matrix: layer_weight(l, LayerWeightSlot::GateUpProj),
                rhs: ff_normed,
                out: merged,
            },
        );
        g.op(
            Op::SliceCols {
                input: TensorRef::Value(merged),
                col_offset: 0,
                out_cols: p.inter,
                out: gate,
            },
        );
        g.op(
            Op::SliceCols {
                input: TensorRef::Value(merged),
                col_offset: p.inter,
                out_cols: p.inter,
                out: up,
            },
        );
    }
    let ff = g.value2(p.seqlen, p.inter);
    g.op(Op::SiluMul { gate: TensorRef::Value(gate), up: TensorRef::Value(up), out: ff });
    let ff_down = g.value2(p.seqlen, p.hidden);
    g.op(
        Op::MatMul {
            matrix: layer_weight(l, LayerWeightSlot::DownProj),
            rhs: TensorRef::Value(ff),
            out: ff_down,
        },
    );
    let next_hidden = g.value2(p.seqlen, p.hidden);
    g.op(
        Op::Add { lhs: hidden_after_attn, rhs: TensorRef::Value(ff_down), out: next_hidden },
    );
    assert(g.keys() =~= keys + ff_keys(p));
    assert(g.models() =~= models + ff_ops(p, l, sum as int, b));
    next_hidden
}

/// Builds one layer on top of the hidden state and gives the next one.
fn build_layer(g: &mut Builder, p: StepDims, l: usize, hidden: ValueId) -> (r: ValueId)
    requires
        fits(p),
        hidden.0 == old(g).keys().len() - 1,
        old(g).keys().len() + 27 <= usize::MAX,
    ensures
        final(g).keys() == old(g).keys() + layer_keys(p),
        final(g).models() == old(g).models() + layer_ops(p, l, old(g).keys().len() as int),
        r.0 == final(g).keys().len() - 1,
{
    let ghost keys = g.keys();
    let ghost models = g.models();
    let b: usize = g.specs.len();
    build_qkv(g, p, l, hidden);
    let heads: usize = g.specs.len();
    build_heads(g, p, b + 1);
    let rope: usize = g.specs.len();
    build_rope(g, p, l, heads);
    let attention: usize = g.specs.len();
    build_attention(g, p, l, hidden, ValueId(rope));
    let next_hidden = build_ff(g, p, l, attention + 3);
    assert(g.keys() =~= keys + layer_keys(p));
    assert(g.models() =~= models + layer_ops(p, l, b as int));
    next_hidden
}

/// The first of the first `l` layers whose output projection does not take the width
/// of the attention.
pub open spec fn bad_output_projection(layers: Seq<LayerWeights>, attn: usize, l: int) -> Option<
    usize,
>
    decreases l,
{
    if l <= 0 {
        None
    } else {
        match bad_output_projection(layers, attn, l - 1) {
            Some(i) => Some(i),
            None => {
                let dims = layers[l - 1].o_proj.dims();
                if dims.len() == 2 && dims[1] == attn {
                    None
                } else {
                    Some((l - 1) as usize)
                }
            },
        }
    }
}

proof fn lemma_bad_projection(layers: Seq<LayerWeights>, attn: usize, a: int, b: int)
    requires
        0 <= a <= b,
        bad_output_projection(layers, attn, a) is Some,
    ensures
        bad_output_projection(layers, attn, b) == bad_output_projection(layers, attn, a),
    decreases b,
{
    if a < b {
        lemma_bad_projection(layers, attn, a, b - 1);
    }
}

/// The sizes of a step of `seqlen` tokens.
pub open spec fn dims_of(cfg: Qwen3Config, seqlen: usize, fused: bool) -> StepDims {
    StepDims {
        seqlen,
        hidden: cfg.hidden_size,
        heads: cfg.num_attention_heads,
        kv_heads: cfg.num_key_value_heads,
        head_dim: cfg.head_dim,
        inter: cfg.intermediate_size,
        vocab: cfg.vocab_size,
        layers: cfg.num_hidden_layers,
        fused,
    }
}

/// The sizes of a step of `seqlen` tokens.
pub fn step_dims(cfg: &Qwen3Config, seqlen: usize, fused: bool) -> (r: StepDims)
    ensures
        r == dims_of(*cfg, seqlen, fused),
{
    StepDims {
        seqlen,
        hidden: cfg.hidden_size,
        heads: cfg.num_attention_heads,
        kv_heads: cfg.num_key_value_heads,
        head_dim: cfg.head_dim,
        inter: cfg.intermediate_size,
        vocab: cfg.vocab_size,
        layers: cfg.num_hidden_layers,
        fused,
    }
}

/// Builds the operations of a step without checking them.
fn build_ops(p: StepDims, layers: &[LayerWeights]) -> (r: Result<Builder, GraphError>)
    requires
        fits(p),
        layers@.len() >= p.layers,
    ensures
        match r {
            Ok(g) => bad_output_projection(layers@, p.attn(), p.layers as int) is None && g.keys()
                == step_keys(p) && g.models() == step_ops(p),
            Err(e) => bad_output_projection(layers@, p.attn(), p.layers as int) matches Some(i) && e
                == (GraphError::OutputProjection { layer: i }),
        },
{
    proof {
        lemma_fits(p);
        lemma_body_len(p, 0);
    }
    let attn: usize = p.heads * p.head_dim;
    let mut g = Builder { specs: Vec::new(), ops: Vec::new() };
    let mut hidden = g.value2(p.seqlen, p.hidden);
    g.op(Op::EmbeddingBatch { out: hidden });
    assert(g.keys() =~= body_keys(p, 0));
    assert(g.models() =~= body_ops(p, 0));
    let mut l: usize = 0;
    while l < p.layers
        invariant
            l <= p.layers,
            fits(p),
            attn == p.attn(),
            layers@.len() >= p.layers,
            g.keys() == body_keys(p, l as int),
            g.models() == body_ops(p, l as int),
            hidden.0 == g.keys().len() - 1,
            g.keys().len() == layer_at(p, l as int),
            bad_output_projection(layers@, attn, l as int) is None,
        decreases p.layers - l,
    {
        let shape: &[usize] = layers[l].o_proj.shape();
        if shape.len() != 2 || shape[1] != attn {
            proof {
                lemma_bad_projection(layers@, attn, l + 1, p.layers as int);
            }
            return Err(GraphError::OutputProjection { layer: l });
        }
        proof {
            lemma_body_len(p, l + 1);
            assert(l * layer_size(p) <= 4096 * 27) by (nonlinear_arith)
                requires
                    0 <= l <= 4096,
                    0 <= layer_size(p) <= 27,
            ;
        }
        hidden = build_layer(&mut g, p, l, hidden);
        l = l + 1;
    }
    let ghost keys = g.keys();
    let ghost models = g.models();
    let hidden_norm = g.value2(p.seqlen, p.hidden);
    g.op(
        Op::RmsNorm {
            x: TensorRef::Value(hidden),
            weight: TensorRef::Weight(WeightRef::Norm),
            n: p.hidden,
            out: hidden_norm,
        },
    );
    let last_hidden = g.value1(p.hidden);
    g.op(
        Op::GatherRow {
            src: TensorRef::Value(hidden_norm),
            row_idx: p.seqlen - 1,
            out: last_hidden,
        },
    );
    let logits = g.value1(p.vocab);
    g.op(
        Op::MatVec {
            matrix: TensorRef::Weight(WeightRef::LmHead),
            vector: TensorRef::Value(last_hidden),
            out: logits,
        },
    );
    assert(g.keys() =~= keys + head_keys(p));
    assert(g.models() =~= models + head_ops(p, layer_at(p, p.layers as int)));
    Ok(g)
}

/// Whether the values of a step can be counted.
pub fn step_fits(p: StepDims) -> (r: bool)
    ensures
        r == fits(p),
{
    if p.seqlen < 1 || p.hidden < 1 || p.head_dim < 1 || p.layers > crate::config::MAX_LAYERS {
        return false;
    }
    let limit: u128 = usize::MAX as u128;
    let s: u128 = p.seqlen as u128;
    proof {
        let m = usize::MAX as int;
        assert(0 <= p.heads * p.head_dim <= m * m) by (nonlinear_arith)
            requires
                0 <= p.heads <= m,
                0 <= p.head_dim <= m,
        ;
        assert(0 <= p.kv_heads * p.head_dim <= m * m) by (nonlinear_arith)
            requires
                0 <= p.kv_heads <= m,
                0 <= p.head_dim <= m,
        ;
        assert(m * m <= 0xffff_ffff_ffff_ffff * 0xffff_ffff_ffff_ffff) by (nonlinear_arith)
            requires
                0 <= m <= 0xffff_ffff_ffff_ffff,
        ;
    }
    let a: u128 = (p.heads as u128) * (p.head_dim as u128);
    let k: u128 = (p.kv_heads as u128) * (p.head_dim as u128);
    proof {
        lemma_product_at_least(p, limit as int, a as int, k as int);
    }
    if a > limit || k > limit {
        return false;
    }
    let w: u128 = (p.hidden as u128) + a + 2 * k + 2 * (p.inter as u128);
    if w > limit {
        return false;
    }
    proof {
        assert(0 <= s * w <= limit * limit) by (nonlinear_arith)
            requires
                0 <= s <= limit,
                0 <= w <= limit,
        ;
        assert(limit * limit <= 0xffff_ffff_ffff_ffff * 0xffff_ffff_ffff_ffff) by (nonlinear_arith)
            requires
                0 <= limit <= 0xffff_ffff_ffff_ffff,
        ;
    }
    let sw: u128 = s * w;
    if sw > limit {
        return false;
    }
    let n: u128 = 56 * ((p.layers as u128) + 1);
    proof {
        assert(0 <= 2 * sw * n <= 2 * limit * 229432) by (nonlinear_arith)
            requires
                0 <= sw <= limit,
                0 <= n <= 229432,
        ;
    }
    2 * sw * n + 2 * (p.vocab as u128) <= limit
}

/// None of the factors of the size of a step is larger than the size.
proof fn lemma_product_at_least(p: StepDims, limit: int, a: int, k: int)
    requires
        p.seqlen >= 1,
        p.hidden >= 1,
        limit == usize::MAX,
        a == p.heads * p.head_dim,
        k == p.kv_heads * p.head_dim,
        a >= 0,
        k >= 0,
    ensures
        width(p) == p.hidden + a + 2 * k + 2 * p.inter,
        fits(p) ==> p.seqlen * width(p) <= limit && width(p) <= limit && a <= limit && k <= limit,
{
    let w = width(p);
    let sw = p.seqlen * w;
    assert(sw >= w) by (nonlinear_arith)
        requires
            sw == p.seqlen * w,
            p.seqlen >= 1,
            w >= 1,
    ;
    let n = 56 * (p.layers + 1);
    assert(2 * sw * n >= 2 * sw) by (nonlinear_arith)
        requires
            sw >= 1,
            n >= 1,
    ;
}

/// Builds the step for `seqlen` tokens. A step of no tokens is refused, and so is a layer
/// whose output projection does not take the width of the attention.
pub fn build_step_graph(
    cfg: &Qwen3Config,
    layers: &[LayerWeights],
    seqlen: usize,
    fused_prefill: bool,
) -> (r: Result<StepGraph, GraphError>)
    requires
        seqlen > 0 ==> fits(dims_of(*cfg, seqlen, fused_prefill)),
        layers@.len() >= cfg.num_hidden_layers,
    ensures
        ({
            let p = dims_of(*cfg, seqlen, fused_prefill);
            let bad = bad_output_projection(layers@, p.attn(), p.layers as int);
            match r {
                Ok(g) => {
                    &&& seqlen > 0
                    &&& bad is None
                    &&& g.wf()
                    &&& g.countable()
                    &&& g.models() == step_ops(p)
                    &&& g.keys() == step_keys(p)
                    &&& g.final_value == step_result(p)
                },
                Err(GraphError::NoTokens) => seqlen == 0,
                Err(e) => seqlen > 0 && (bad matches Some(i) && e == (
                GraphError::OutputProjection { layer: i })),
            }
        }),
{
    if seqlen == 0 {
        return Err(GraphError::NoTokens);
    }
    let p = step_dims(cfg, seqlen, fused_prefill);
    proof {
        law_forward_step_is_good(p);
        lemma_body_len(p, p.layers as int);
        lemma_fits(p);
    }
    let g = build_ops(p, layers)?;
    let result = ValueId(g.specs.len() - 1);
    assert(g.specs@.len() == step_keys(p).len());
    StepGraph::new(g.ops, g.specs, result)
}

} // verus!
