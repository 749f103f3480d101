//! Warm-up: what runs once before the first request, so that every kernel is compiled.
use crate::config::Qwen3Config;
use crate::decode_plan::{Shape, QK_ROPE_LATENCY_DEFAULT};
use crate::forward::LayerWeights;
use crate::graph::{
    half_key, spec_keys, GraphOp, LayerWeightSlot, Op, OpModel, SpecKey, TensorRef, TensorSpec,
    ValueId, WeightRef,
};
use crate::kernel::{
    plain_call, CallModel, Grid, Kernel, KernelCall, KernelKind, KernelWarmRegistry, new_call,
};
use crate::knobs::{argmax_reduce_block_size, ceil_pow2};
use crate::pointwise::{block_count, blocks_for, RMS_BLOCK};
use crate::products::{part_of, part_specs, Part, Soa};
use crate::weights::{MatrixWeight, Weight};
use vstd::prelude::*;

verus! {

/// The weight of a norm.
#[derive(Clone, Copy, Debug, PartialEq, Eq, Structural)]
pub enum NormWeight {
    /// Of the last hidden state.
    Final,
    /// Of the queries of the first layer.
    Query,
}

/// One thing to run on cleared buffers. Layers are the first, positions are 0.
#[derive(Debug)]
pub enum WarmOp {
    /// Embed one token.
    Embed { token: u32 },
    /// Multiply a row of this width by the query, key and value projection.
    Matmul { width: usize },
    /// Multiply a vector of this length by the output head.
    Matvec { len: usize },
    /// Norm one row of this width.
    Norm { width: usize, weight: NormWeight },
    /// Rotate the heads of one token.
    Rope { heads: usize, head_dim: usize, device_position: bool },
    /// Put keys and values of one token into the cache.
    CacheUpdate { kv_heads: usize, head_dim: usize, device_position: bool },
    /// Attend from this many tokens.
    Attend { q_len: usize, heads: usize, head_dim: usize, device_position: bool },
    /// Add rows of this width.
    Add { width: usize },
    /// Multiply gated rows of this width.
    SiluMul { width: usize },
    /// Take the first row.
    GatherRow { width: usize },
    /// Find the greatest of this many.
    Argmax { len: usize },
    /// Add and norm rows of this width.
    AddNorm { width: usize },
    /// Norm, rotate and cache this many tokens.
    FusedPrefill { tokens: usize, heads: usize, kv_heads: usize, head_dim: usize },
    /// Call a kernel on buffers of these shapes.
    Call { call: KernelCall, inputs: Vec<Shape>, outputs: Vec<Shape> },
    /// Multiply a vector by this part of the weights.
    QuantMatvec { part: usize },
}

/// One thing to run.
#[verifier::ext_equal]
pub enum WarmModel {
    Embed { token: u32 },
    Matmul { width: usize },
    Matvec { len: usize },
    Norm { width: usize, weight: NormWeight },
    Rope { heads: usize, head_dim: usize, device_position: bool },
    CacheUpdate { kv_heads: usize, head_dim: usize, device_position: bool },
    Attend { q_len: usize, heads: usize, head_dim: usize, device_position: bool },
    Add { width: usize },
    SiluMul { width: usize },
    GatherRow { width: usize },
    Argmax { len: usize },
    AddNorm { width: usize },
    FusedPrefill { tokens: usize, heads: usize, kv_heads: usize, head_dim: usize },
    Call { call: CallModel, inputs: Seq<Shape>, outputs: Seq<Shape> },
    QuantMatvec { part: usize },
}

impl View for WarmOp {
    type V = WarmModel;

    open spec fn view(&self) -> WarmModel {
        match *self {
            WarmOp::Embed { token } => WarmModel::Embed { token },
            WarmOp::Matmul { width } => WarmModel::Matmul { width },
            WarmOp::Matvec { len } => WarmModel::Matvec { len },
            WarmOp::Norm { width, weight } => WarmModel::Norm { width, weight },
            WarmOp::Rope { heads, head_dim, device_position } => WarmModel::Rope {
                heads,
                head_dim,
                device_position,
            },
            WarmOp::CacheUpdate { kv_heads, head_dim, device_position } => WarmModel::CacheUpdate {
                kv_heads,
                head_dim,
                device_position,
            },
            WarmOp::Attend { q_len, heads, head_dim, device_position } => WarmModel::Attend {
                q_len,
                heads,
                head_dim,
                device_position,
            },
            WarmOp::Add { width } => WarmModel::Add { width },
            WarmOp::SiluMul { width } => WarmModel::SiluMul { width },
            WarmOp::GatherRow { width } => WarmModel::GatherRow { width },
            WarmOp::Argmax { len } => WarmModel::Argmax { len },
            WarmOp::AddNorm { width } => WarmModel::AddNorm { width },
            WarmOp::FusedPrefill { tokens, heads, kv_heads, head_dim } => WarmModel::FusedPrefill {
                tokens,
                heads,
                kv_heads,
                head_dim,
            },
            WarmOp::Call { call, inputs, outputs } => WarmModel::Call {
                call: call@,
                inputs: inputs@,
                outputs: outputs@,
            },
            WarmOp::QuantMatvec { part } => WarmModel::QuantMatvec { part },
        }
    }
}

/// The models of a list.
pub open spec fn warm_models(v: Seq<WarmOp>) -> Seq<WarmModel> {
    v.map_values(|w: WarmOp| w@)
}

/// The token that is embedded: one that ends a text, or 0, and never past the vocabulary.
pub open spec fn warm_token(eos: Seq<u32>, vocab: usize) -> u32 {
    let token = (if eos.len() > 0 {
        eos[0]
    } else {
        0
    });
    let last = (if vocab > 0 {
        (vocab - 1) as u32
    } else {
        0
    });
    if token <= last {
        token
    } else {
        last
    }
}

/// The kernel that norms queries and keys.
pub open spec fn qk_norm_warm(heads: usize, kv_heads: usize, head_dim: usize) -> WarmModel {
    WarmModel::Call {
        call: CallModel {
            ints: seq![heads],
            ..plain_call(Kernel::QkNorm, seq![1usize, head_dim], seq![head_dim, RMS_BLOCK])
        },
        inputs: seq![Shape::D2(heads, head_dim), Shape::D2(kv_heads, head_dim)],
        outputs: seq![Shape::D2((heads + kv_heads) as usize, head_dim)],
    }
}

/// The kernel that rotates queries and keys.
pub open spec fn qk_rope_warm(heads: usize, kv_heads: usize, head_dim: usize) -> WarmModel {
    WarmModel::Call {
        call: CallModel {
            ints: seq![heads],
            ..plain_call(
                Kernel::QkRopeDynpos,
                seq![1usize, 1usize, head_dim / 2],
                seq![head_dim, head_dim / 2, QK_ROPE_LATENCY_DEFAULT],
            )
        },
        inputs: seq![
            Shape::D3(1, heads, head_dim),
            Shape::D3(1, kv_heads, head_dim),
            Shape::D1(1),
        ],
        outputs: seq![Shape::D3(1, (heads + kv_heads) as usize, head_dim)],
    }
}

/// The kernel that norms, rotates and caches one token.
pub open spec fn fused_decode_warm(
    heads: usize,
    kv_heads: usize,
    head_dim: usize,
    max_seq_len: usize,
) -> WarmModel {
    WarmModel::Call {
        call: CallModel {
            ints: seq![heads, kv_heads],
            grid: Some(Grid { x: (heads + kv_heads) as usize, y: 2, z: 1 }),
            ..plain_call(
                Kernel::QkNormRopeKvDecodeRaw,
                Seq::empty(),
                seq![head_dim, head_dim / 2, max_seq_len],
            )
        },
        inputs: seq![
            Shape::D2(1, ((heads + 2 * kv_heads) * head_dim) as usize),
            Shape::D1(1),
        ],
        outputs: seq![
            Shape::D3(1, (heads + kv_heads) as usize, head_dim),
            Shape::D3(kv_heads, max_seq_len, head_dim),
            Shape::D3(kv_heads, max_seq_len, head_dim),
        ],
    }
}

/// The kernel that finds the greatest of the blocks.
pub open spec fn reduce_warm(vocab: usize, block: usize) -> WarmModel {
    let n = blocks_for(vocab as int, block as int) as usize;
    WarmModel::Call {
        call: CallModel {
            ints: seq![n],
            ..plain_call(
                Kernel::ArgmaxReduceBlocks,
                seq![1usize],
                seq![ceil_pow2(n as nat) as usize],
            )
        },
        inputs: seq![Shape::D1(n), Shape::D1(n)],
        outputs: seq![Shape::D1(1)],
    }
}

/// Whether a part is kept in a split form, which is the one with kernels worth compiling
/// ahead.
pub open spec fn is_split(p: Part) -> bool {
    p.quantized && !(p.soa is Whole)
}

/// Whether part `i` is the first split one of its type and width.
pub open spec fn first_of_kind(parts: Seq<Part>, i: int) -> bool {
    &&& 0 <= i < parts.len()
    &&& is_split(parts[i])
    &&& forall|j: int|
        0 <= j < i ==> !(is_split(#[trigger] parts[j]) && parts[j].dtype == parts[i].dtype
            && parts[j].cols == parts[i].cols)
}

/// The first split part of each type and width, in order.
pub open spec fn quant_warm(parts: Seq<Part>) -> Seq<WarmModel>
    decreases parts.len(),
{
    if parts.len() == 0 {
        Seq::empty()
    } else {
        let i = parts.len() - 1;
        let before = quant_warm(parts.drop_last());
        if first_of_kind(parts, i) {
            before.push(WarmModel::QuantMatvec { part: i as usize })
        } else {
            before
        }
    }
}

/// Sizes that warm-up needs.
#[derive(Clone, Copy, Debug, PartialEq, Eq, Structural)]
pub struct WarmDims {
    pub vocab: usize,
    pub hidden: usize,
    pub intermediate: usize,
    pub heads: usize,
    pub kv_heads: usize,
    pub head_dim: usize,
    pub max_seq_len: usize,
    pub argmax_block: usize,
}

impl WarmDims {
    /// The sizes can be added and multiplied.
    pub open spec fn wf(self) -> bool {
        &&& self.argmax_block >= 1
        &&& self.vocab + self.argmax_block <= usize::MAX
        &&& blocks_for(self.vocab as int, self.argmax_block as int) <= usize::MAX / 2 + 1
        &&& self.heads + 2 * self.kv_heads <= usize::MAX
        &&& (self.heads + 2 * self.kv_heads) * self.head_dim <= usize::MAX
    }

    /// Whether the sizes can be added and multiplied.
    pub fn fits(self) -> (r: bool)
        ensures
            r == self.wf(),
    {
        if self.argmax_block < 1 || self.vocab.checked_add(self.argmax_block).is_none() {
            return false;
        }
        if block_count(self.vocab, self.argmax_block) > usize::MAX / 2 + 1 {
            return false;
        }
        let all: u128 = self.heads as u128 + 2 * (self.kv_heads as u128);
        all <= usize::MAX as u128 && (all as usize).checked_mul(self.head_dim).is_some()
    }

    /// The sizes of a model.
    pub fn of(cfg: &Qwen3Config, max_seq_len: usize, argmax_block: usize) -> (r: Self)
        ensures
            r == warm_dims(*cfg, max_seq_len, argmax_block),
    {
        WarmDims {
            vocab: cfg.vocab_size,
            hidden: cfg.hidden_size,
            intermediate: cfg.intermediate_size,
            heads: cfg.num_attention_heads,
            kv_heads: cfg.num_key_value_heads,
            head_dim: cfg.head_dim,
            max_seq_len,
            argmax_block,
        }
    }
}

/// The sizes of a model.
pub open spec fn warm_dims(cfg: Qwen3Config, max_seq_len: usize, argmax_block: usize) -> WarmDims {
    WarmDims {
        vocab: cfg.vocab_size,
        hidden: cfg.hidden_size,
        intermediate: cfg.intermediate_size,
        heads: cfg.num_attention_heads,
        kv_heads: cfg.num_key_value_heads,
        head_dim: cfg.head_dim,
        max_seq_len,
        argmax_block,
    }
}

/// What compiles the kernels of a family.
pub open spec fn warm_ops(kind: KernelKind, d: WarmDims, eos: Seq<u32>, parts: Seq<Part>) -> Seq<
    WarmModel,
> {
    match kind {
        KernelKind::EmbeddingBatch => seq![WarmModel::Embed { token: warm_token(eos, d.vocab) }],
        KernelKind::Gemm => seq![WarmModel::Matmul { width: d.hidden }],
        KernelKind::Gemv => seq![WarmModel::Matvec { len: d.hidden }],
        KernelKind::RmsNorm => seq![
            WarmModel::Norm { width: d.hidden, weight: NormWeight::Final },
            WarmModel::Norm { width: d.head_dim, weight: NormWeight::Query },
        ],
        KernelKind::RopeSeq => seq![
            WarmModel::Rope { heads: d.heads, head_dim: d.head_dim, device_position: false },
        ],
        KernelKind::KvCacheUpdateSeq => seq![
            WarmModel::CacheUpdate {
                kv_heads: d.kv_heads,
                head_dim: d.head_dim,
                device_position: false,
            },
        ],
        KernelKind::FlashAttnCausalSeq => if d.max_seq_len >= 2 {
            seq![attend_warm(1, d), attend_warm(2, d)]
        } else if d.max_seq_len == 1 {
            seq![attend_warm(1, d)]
        } else {
            Seq::empty()
        },
        KernelKind::AddVec => seq![WarmModel::Add { width: d.hidden }],
        KernelKind::SiluMul => seq![WarmModel::SiluMul { width: d.intermediate }],
        KernelKind::GatherRow => seq![WarmModel::GatherRow { width: d.hidden }],
        KernelKind::ArgmaxBlocks => seq![WarmModel::Argmax { len: d.vocab }],
        KernelKind::AddRmsNorm => seq![WarmModel::AddNorm { width: d.hidden }],
        KernelKind::QkNorm => seq![qk_norm_warm(d.heads, d.kv_heads, d.head_dim)],
        KernelKind::QkRope => seq![qk_rope_warm(d.heads, d.kv_heads, d.head_dim)],
        KernelKind::QkNormRopeKvPrefill => if d.max_seq_len >= 2 {
            seq![
                WarmModel::FusedPrefill {
                    tokens: 2,
                    heads: d.heads,
                    kv_heads: d.kv_heads,
                    head_dim: d.head_dim,
                },
            ]
        } else {
            Seq::empty()
        },
        KernelKind::QkNormRopeKvDecode => seq![
            fused_decode_warm(d.heads, d.kv_heads, d.head_dim, d.max_seq_len),
        ],
        KernelKind::QuantGemv => quant_warm(parts),
        KernelKind::ArgmaxReduceBlocks => seq![reduce_warm(d.vocab, d.argmax_block)],
    }
}

/// Attention from this many tokens.
pub open spec fn attend_warm(q_len: usize, d: WarmDims) -> WarmModel {
    WarmModel::Attend { q_len, heads: d.heads, head_dim: d.head_dim, device_position: false }
}

/// What compiles the kernels that read their position from the device.
pub open spec fn decode_warm(d: WarmDims) -> Seq<WarmModel> {
    seq![
        WarmModel::Rope { heads: d.heads, head_dim: d.head_dim, device_position: true },
        WarmModel::CacheUpdate {
            kv_heads: d.kv_heads,
            head_dim: d.head_dim,
            device_position: true,
        },
        WarmModel::Attend {
            q_len: 1,
            heads: d.heads,
            head_dim: d.head_dim,
            device_position: true,
        },
    ]
}

/// Every type and width that a split part has is warmed, by its first part.
pub proof fn law_every_split_kind_is_warmed(parts: Seq<Part>, i: int)
    requires
        0 <= i < parts.len(),
        parts.len() <= usize::MAX,
        is_split(parts[i]),
    ensures
        exists|j: int|
            #![trigger parts[j]]
            0 <= j <= i && first_of_kind(parts, j) && parts[j].dtype == parts[i].dtype
                && parts[j].cols == parts[i].cols && quant_warm(parts).contains(
                WarmModel::QuantMatvec { part: j as usize },
            ),
    decreases i,
{
    if first_of_kind(parts, i) {
        lemma_warm_contains(parts, i);
    } else {
        let j = choose|j: int|
            0 <= j < i && is_split(#[trigger] parts[j]) && parts[j].dtype == parts[i].dtype
                && parts[j].cols == parts[i].cols;
        law_every_split_kind_is_warmed(parts, j);
    }
}

proof fn lemma_first_of_kind_prefix(parts: Seq<Part>, i: int)
    requires
        0 <= i < parts.len() - 1,
    ensures
        first_of_kind(parts, i) == first_of_kind(parts.drop_last(), i),
{
    let p = parts.drop_last();
    assert(forall|j: int| 0 <= j < p.len() ==> p[j] == parts[j]);
}

proof fn lemma_warm_contains(parts: Seq<Part>, i: int)
    requires
        first_of_kind(parts, i),
    ensures
        quant_warm(parts).contains(WarmModel::QuantMatvec { part: i as usize }),
    decreases parts.len(),
{
    let want = WarmModel::QuantMatvec { part: i as usize };
    if i < parts.len() - 1 {
        lemma_first_of_kind_prefix(parts, i);
        lemma_warm_contains(parts.drop_last(), i);
        let before = quant_warm(parts.drop_last());
        let k = choose|k: int| 0 <= k < before.len() && before[k] == want;
        assert(quant_warm(parts)[k] == want);
    } else {
        let before = quant_warm(parts.drop_last());
        assert(quant_warm(parts)[before.len() as int] == want);
    }
}

fn is_split_part(p: &Part) -> (r: bool)
    ensures
        r == is_split(*p),
{
    p.quantized && !matches!(p.soa, Soa::Whole)
}

/// Whether part `i` is the first split one of its type and width.
fn is_first_of_kind(parts: &[Part], i: usize) -> (r: bool)
    requires
        i < parts@.len(),
    ensures
        r == first_of_kind(parts@, i as int),
{
    if !is_split_part(&parts[i]) {
        return false;
    }
    let mut j: usize = 0;
    while j < i
        invariant
            j <= i < parts@.len(),
            is_split(parts@[i as int]),
            forall|k: int|
                0 <= k < j ==> !(is_split(#[trigger] parts@[k]) && parts@[k].dtype
                    == parts@[i as int].dtype && parts@[k].cols == parts@[i as int].cols),
        decreases i - j,
    {
        let (a, b) = (parts[j], parts[i]);
        if is_split_part(&a) && a.dtype == b.dtype && a.cols == b.cols {
            assert(is_split(parts@[j as int]));
            return false;
        }
        j = j + 1;
    }
    true
}

/// What compiles the products of split parts.
pub fn warm_quant_gemv_kernels(parts: &[Part]) -> (r: Vec<WarmOp>)
    ensures
        warm_models(r@) == quant_warm(parts@),
{
    let ghost all = parts@;
    let mut out: Vec<WarmOp> = Vec::new();
    let mut i: usize = 0;
    assert(all.subrange(0, 0) =~= Seq::empty());
    assert(warm_models(out@) =~= Seq::empty());
    while i < parts.len()
        invariant
            i <= parts@.len(),
            all == parts@,
            warm_models(out@) == quant_warm(all.subrange(0, i as int)),
        decreases parts@.len() - i,
    {
        let ghost now = all.subrange(0, i + 1);
        assert(now.drop_last() =~= all.subrange(0, i as int));
        assert(forall|k: int| 0 <= k <= i ==> now[k] == all[k]);
        if is_first_of_kind(parts, i) {
            assert(first_of_kind(now, i as int));
            let ghost before = out@;
            out.push(WarmOp::QuantMatvec { part: i });
            assert(warm_models(out@) =~= warm_models(before).push(
                WarmModel::QuantMatvec { part: i },
            ));
        } else {
            assert(!first_of_kind(now, i as int)) by {
                if is_split(all[i as int]) {
                    let j = choose|j: int|
                        0 <= j < i && is_split(#[trigger] all[j]) && all[j].dtype
                            == all[i as int].dtype && all[j].cols == all[i as int].cols;
                    assert(now[j] == all[j]);
                }
            }
        }
        i = i + 1;
    }
    assert(all.subrange(0, all.len() as int) =~= all);
    out
}

/// The parts of a model that products may read: embedding, output head, then the layers.
pub open spec fn warm_parts(
    embed: MatrixWeight,
    head: MatrixWeight,
    layers: Seq<LayerWeights>,
) -> Seq<Weight> {
    embed.stack() + head.stack() + crate::engine::layer_parts(layers)
}

/// Every part is a matrix.
pub open spec fn all_matrices(parts: Seq<Weight>) -> bool {
    forall|i: int| 0 <= i < parts.len() ==> (#[trigger] parts[i]).dims().len() == 2
}

/// Adds the parts of a matrix.
fn push_parts(out: &mut Vec<Part>, m: &MatrixWeight)
    requires
        all_matrices(m.stack()),
    ensures
        final(out)@ == old(out)@ + part_specs(m.stack()),
{
    let ghost before = out@;
    let parts: &[Weight] = m.parts();
    let mut i: usize = 0;
    while i < parts.len()
        invariant
            i <= parts@.len(),
            parts@ == m.stack(),
            all_matrices(m.stack()),
            out@ == before + part_specs(m.stack()).subrange(0, i as int),
        decreases parts@.len() - i,
    {
        assert(parts@[i as int].dims().len() == 2);
        out.push(part_of(&parts[i]));
        assert(out@ =~= before + part_specs(m.stack()).subrange(0, i + 1));
        i = i + 1;
    }
    assert(out@ =~= before + part_specs(m.stack()));
}

/// The parts of a layer are matrices where those of all are.
proof fn lemma_layer_matrices(layers: Seq<LayerWeights>, i: int)
    requires
        all_matrices(crate::engine::layer_parts(layers)),
        0 <= i < layers.len(),
    ensures
        all_matrices(layers[i].qkv_proj.stack()),
        all_matrices(layers[i].o_proj.stack()),
        all_matrices(layers[i].gate_up_proj.stack()),
        all_matrices(layers[i].down_proj.stack()),
    decreases layers.len(),
{
    let before = crate::engine::layer_parts(layers.drop_last());
    let whole = crate::engine::layer_parts(layers);
    let last = layers.last();
    let (q, o, g, d) = (
        last.qkv_proj.stack(),
        last.o_proj.stack(),
        last.gate_up_proj.stack(),
        last.down_proj.stack(),
    );
    let n = before.len() as int;
    if i < layers.len() - 1 {
        assert forall|k: int| 0 <= k < before.len() implies (#[trigger] before[k]).dims().len()
            == 2 by {
            assert(before[k] == whole[k]);
        }
        lemma_layer_matrices(layers.drop_last(), i);
        assert(layers.drop_last()[i] == layers[i]);
    } else {
        assert forall|k: int| 0 <= k < q.len() implies (#[trigger] q[k]).dims().len() == 2 by {
            assert(q[k] == whole[n + k]);
        }
        assert forall|k: int| 0 <= k < o.len() implies (#[trigger] o[k]).dims().len() == 2 by {
            assert(o[k] == whole[n + q.len() + k]);
        }
        assert forall|k: int| 0 <= k < g.len() implies (#[trigger] g[k]).dims().len() == 2 by {
            assert(g[k] == whole[n + q.len() + o.len() + k]);
        }
        assert forall|k: int| 0 <= k < d.len() implies (#[trigger] d[k]).dims().len() == 2 by {
            assert(d[k] == whole[n + q.len() + o.len() + g.len() + k]);
        }
    }
}

proof fn lemma_specs_join(a: Seq<Weight>, b: Seq<Weight>)
    ensures
        part_specs(a + b) == part_specs(a) + part_specs(b),
{
    assert(part_specs(a + b) =~= part_specs(a) + part_specs(b));
}

/// The parts of a model that products may read, in order.
pub fn quant_gemv_warmup_parts(
    embed: &MatrixWeight,
    head: &MatrixWeight,
    layers: &[LayerWeights],
) -> (r: Vec<Part>)
    requires
        all_matrices(embed.stack()),
        all_matrices(head.stack()),
        all_matrices(crate::engine::layer_parts(layers@)),
    ensures
        r@ == part_specs(warm_parts(*embed, *head, layers@)),
{
    let ghost all = layers@;
    let mut out: Vec<Part> = Vec::new();
    push_parts(&mut out, embed);
    push_parts(&mut out, head);
    let ghost top = embed.stack() + head.stack();
    proof {
        lemma_specs_join(embed.stack(), head.stack());
        assert(all.subrange(0, 0) =~= Seq::empty());
        assert(top + crate::engine::layer_parts(all.subrange(0, 0)) =~= top);
    }
    let mut i: usize = 0;
    while i < layers.len()
        invariant
            i <= layers@.len(),
            all == layers@,
            all_matrices(crate::engine::layer_parts(all)),
            out@ == part_specs(top + crate::engine::layer_parts(all.subrange(0, i as int))),
        decreases layers@.len() - i,
    {
        let l: &LayerWeights = &layers[i];
        let ghost before = top + crate::engine::layer_parts(all.subrange(0, i as int));
        proof {
            lemma_layer_matrices(all, i as int);
            let (q, o, g, d) = (
                l.qkv_proj.stack(),
                l.o_proj.stack(),
                l.gate_up_proj.stack(),
                l.down_proj.stack(),
            );
            lemma_specs_join(before, q);
            lemma_specs_join(before + q, o);
            lemma_specs_join(before + q + o, g);
            lemma_specs_join(before + q + o + g, d);
            assert(all.subrange(0, i + 1).drop_last() =~= all.subrange(0, i as int));
            assert(top + crate::engine::layer_parts(all.subrange(0, i + 1)) =~= before + q + o + g
                + d);
        }
        push_parts(&mut out, &l.qkv_proj);
        push_parts(&mut out, &l.o_proj);
        push_parts(&mut out, &l.gate_up_proj);
        push_parts(&mut out, &l.down_proj);
        i = i + 1;
    }
    assert(all.subrange(0, all.len() as int) =~= all);
    out
}

fn one(op: WarmOp) -> (r: Vec<WarmOp>)
    ensures
        warm_models(r@) == seq![op@],
{
    let mut v: Vec<WarmOp> = Vec::new();
    v.push(op);
    assert(warm_models(v@) =~= seq![op@]);
    v
}

fn new_qk_norm_warm(heads: usize, kv_heads: usize, head_dim: usize) -> (r: WarmOp)
    requires
        heads + kv_heads <= usize::MAX,
    ensures
        r@ == qk_norm_warm(heads, kv_heads, head_dim),
{
    let mut call: KernelCall = new_call(
        Kernel::QkNorm,
        vec![1usize, head_dim],
        vec![head_dim, RMS_BLOCK],
    );
    call.ints = vec![heads];
    let r = WarmOp::Call {
        call,
        inputs: vec![Shape::D2(heads, head_dim), Shape::D2(kv_heads, head_dim)],
        outputs: vec![Shape::D2(heads + kv_heads, head_dim)],
    };
    assert(r@ =~~= qk_norm_warm(heads, kv_heads, head_dim));
    r
}

fn new_qk_rope_warm(heads: usize, kv_heads: usize, head_dim: usize) -> (r: WarmOp)
    requires
        heads + kv_heads <= usize::MAX,
    ensures
        r@ == qk_rope_warm(heads, kv_heads, head_dim),
{
    let mut call: KernelCall = new_call(
        Kernel::QkRopeDynpos,
        vec![1usize, 1usize, head_dim / 2],
        vec![head_dim, head_dim / 2, QK_ROPE_LATENCY_DEFAULT],
    );
    call.ints = vec![heads];
    let r = WarmOp::Call {
        call,
        inputs: vec![
            Shape::D3(1, heads, head_dim),
            Shape::D3(1, kv_heads, head_dim),
            Shape::D1(1),
        ],
        outputs: vec![Shape::D3(1, heads + kv_heads, head_dim)],
    };
    assert(r@ =~~= qk_rope_warm(heads, kv_heads, head_dim));
    r
}

fn new_fused_decode_warm(heads: usize, kv_heads: usize, head_dim: usize, max_seq_len: usize) -> (r:
    WarmOp)
    requires
        heads + 2 * kv_heads <= usize::MAX,
        (heads + 2 * kv_heads) * head_dim <= usize::MAX,
    ensures
        r@ == fused_decode_warm(heads, kv_heads, head_dim, max_seq_len),
{
    let mut call: KernelCall = new_call(
        Kernel::QkNormRopeKvDecodeRaw,
        Vec::new(),
        vec![head_dim, head_dim / 2, max_seq_len],
    );
    call.ints = vec![heads, kv_heads];
    call.grid = Some(Grid { x: heads + kv_heads, y: 2, z: 1 });
    let width: usize = (heads + 2 * kv_heads) * head_dim;
    let r = WarmOp::Call {
        call,
        inputs: vec![Shape::D2(1, width), Shape::D1(1)],
        outputs: vec![
            Shape::D3(1, heads + kv_heads, head_dim),
            Shape::D3(kv_heads, max_seq_len, head_dim),
            Shape::D3(kv_heads, max_seq_len, head_dim),
        ],
    };
    assert(r@ =~~= fused_decode_warm(heads, kv_heads, head_dim, max_seq_len));
    r
}

fn new_reduce_warm(vocab: usize, block: usize) -> (r: WarmOp)
    requires
        block >= 1,
        vocab + block <= usize::MAX,
        blocks_for(vocab as int, block as int) <= usize::MAX / 2 + 1,
    ensures
        r@ == reduce_warm(vocab, block),
{
    let n: usize = block_count(vocab, block);
    let mut call: KernelCall = new_call(
        Kernel::ArgmaxReduceBlocks,
        vec![1usize],
        vec![argmax_reduce_block_size(n)],
    );
    call.ints = vec![n];
    let r = WarmOp::Call {
        call,
        inputs: vec![Shape::D1(n), Shape::D1(n)],
        outputs: vec![Shape::D1(1)],
    };
    assert(r@ =~~= reduce_warm(vocab, block));
    r
}

/// What compiles the kernels of a family.
pub fn warm_family(kind: KernelKind, d: WarmDims, eos: &[u32], parts: &[Part]) -> (r: Vec<WarmOp>)
    requires
        d.wf(),
    ensures
        warm_models(r@) == warm_ops(kind, d, eos@, parts@),
{
    match kind {
        KernelKind::EmbeddingBatch => {
            let token: u32 = if eos.len() > 0 {
                eos[0]
            } else {
                0
            };
            let last: u32 = if d.vocab > 0 {
                (d.vocab - 1) as u32
            } else {
                0
            };
            one(
                WarmOp::Embed {
                    token: if token <= last {
                        token
                    } else {
                        last
                    },
                },
            )
        },
        KernelKind::Gemm => one(WarmOp::Matmul { width: d.hidden }),
        KernelKind::Gemv => one(WarmOp::Matvec { len: d.hidden }),
        KernelKind::RmsNorm => {
            let mut v: Vec<WarmOp> = Vec::new();
            v.push(WarmOp::Norm { width: d.hidden, weight: NormWeight::Final });
            v.push(WarmOp::Norm { width: d.head_dim, weight: NormWeight::Query });
            assert(warm_models(v@) =~= warm_ops(kind, d, eos@, parts@));
            v
        },
        KernelKind::RopeSeq => one(
            WarmOp::Rope { heads: d.heads, head_dim: d.head_dim, device_position: false },
        ),
        KernelKind::KvCacheUpdateSeq => one(
            WarmOp::CacheUpdate {
                kv_heads: d.kv_heads,
                head_dim: d.head_dim,
                device_position: false,
            },
        ),
        KernelKind::FlashAttnCausalSeq => {
            let mut v: Vec<WarmOp> = Vec::new();
            if d.max_seq_len >= 1 {
                v.push(
                    WarmOp::Attend {
                        q_len: 1,
                        heads: d.heads,
                        head_dim: d.head_dim,
                        device_position: false,
                    },
                );
            }
            if d.max_seq_len >= 2 {
                v.push(
                    WarmOp::Attend {
                        q_len: 2,
                        heads: d.heads,
                        head_dim: d.head_dim,
                        device_position: false,
                    },
                );
            }
            assert(warm_models(v@) =~= warm_ops(kind, d, eos@, parts@));
            v
        },
        KernelKind::AddVec => one(WarmOp::Add { width: d.hidden }),
        KernelKind::SiluMul => one(WarmOp::SiluMul { width: d.intermediate }),
        KernelKind::GatherRow => one(WarmOp::GatherRow { width: d.hidden }),
        KernelKind::ArgmaxBlocks => one(WarmOp::Argmax { len: d.vocab }),
        KernelKind::AddRmsNorm => one(WarmOp::AddNorm { width: d.hidden }),
        KernelKind::QkNorm => one(new_qk_norm_warm(d.heads, d.kv_heads, d.head_dim)),
        KernelKind::QkRope => one(new_qk_rope_warm(d.heads, d.kv_heads, d.head_dim)),
        KernelKind::QkNormRopeKvPrefill => {
            let mut v: Vec<WarmOp> = Vec::new();
            if d.max_seq_len >= 2 {
                v.push(
                    WarmOp::FusedPrefill {
                        tokens: 2,
                        heads: d.heads,
                        kv_heads: d.kv_heads,
                        head_dim: d.head_dim,
                    },
                );
            }
            assert(warm_models(v@) =~= warm_ops(kind, d, eos@, parts@));
            v
        },
        KernelKind::QkNormRopeKvDecode => one(
            new_fused_decode_warm(d.heads, d.kv_heads, d.head_dim, d.max_seq_len),
        ),
        KernelKind::QuantGemv => warm_quant_gemv_kernels(parts),
        KernelKind::ArgmaxReduceBlocks => one(new_reduce_warm(d.vocab, d.argmax_block)),
    }
}

/// What compiles the kernels of a family that is not warm yet.
pub fn warm_tile_kernel(
    registry: &KernelWarmRegistry,
    kind: KernelKind,
    d: WarmDims,
    eos: &[u32],
    parts: &[Part],
) -> (r: Vec<WarmOp>)
    requires
        registry.wf(),
        d.wf(),
    ensures
        warm_models(r@) == (if registry.warmed@[kind.place()] {
            Seq::<WarmModel>::empty()
        } else {
            warm_ops(kind, d, eos@, parts@)
        }),
{
    if registry.is_warmed(kind) {
        let v: Vec<WarmOp> = Vec::new();
        assert(warm_models(v@) =~= Seq::<WarmModel>::empty());
        return v;
    }
    warm_family(kind, d, eos, parts)
}

/// What compiles the kernels that read their position from the device.
pub fn warm_decode_graph_kernels(d: WarmDims) -> (r: Vec<WarmOp>)
    ensures
        warm_models(r@) == decode_warm(d),
{
    let mut v: Vec<WarmOp> = Vec::new();
    v.push(WarmOp::Rope { heads: d.heads, head_dim: d.head_dim, device_position: true });
    v.push(
        WarmOp::CacheUpdate {
            kv_heads: d.kv_heads,
            head_dim: d.head_dim,
            device_position: true,
        },
    );
    v.push(
        WarmOp::Attend {
            q_len: 1,
            heads: d.heads,
            head_dim: d.head_dim,
            device_position: true,
        },
    );
    assert(warm_models(v@) =~= decode_warm(d));
    v
}

/// One operation of a step on buffers of its own.
#[derive(Debug)]
pub struct WarmStep {
    pub specs: Vec<TensorSpec>,
    pub op: GraphOp,
}

/// What such an operation is.
#[verifier::ext_equal]
pub struct WarmStepModel {
    pub keys: Seq<SpecKey>,
    pub op: OpModel,
}

impl View for WarmStep {
    type V = WarmStepModel;

    open spec fn view(&self) -> WarmStepModel {
        WarmStepModel { keys: spec_keys(self.specs@), op: self.op@ }
    }
}

/// Sizes of weights that warm-up multiplies by.
#[derive(Clone, Copy, Debug, PartialEq, Eq, Structural)]
pub struct WarmRows {
    /// Of the hidden state.
    pub hidden: usize,
    /// Of the query, key and value projection of the first layer.
    pub qkv: usize,
    /// Of the output head.
    pub head: usize,
}

/// The value with this number.
pub open spec fn warm_value(i: usize) -> TensorRef {
    TensorRef::Value(ValueId(i))
}

/// A weight of the first layer.
pub open spec fn first_layer(slot: LayerWeightSlot) -> TensorRef {
    TensorRef::Weight(WeightRef::Layer { layer_idx: 0, slot })
}

/// The weight of a norm.
pub open spec fn norm_weight(weight: NormWeight) -> TensorRef {
    match weight {
        NormWeight::Final => TensorRef::Weight(WeightRef::Norm),
        NormWeight::Query => first_layer(LayerWeightSlot::QNorm),
    }
}

/// The operation of a step that runs what is to be warmed; `None` where it is none.
pub open spec fn warm_step_spec(w: WarmModel, rows: WarmRows) -> Option<WarmStepModel> {
    let line = |n: usize| half_key(seq![1usize, n]);
    match w {
        WarmModel::Embed { .. } => Some(
            WarmStepModel {
                keys: seq![line(rows.hidden)],
                op: Op::EmbeddingBatch { out: ValueId(0) },
            },
        ),
        WarmModel::Matmul { width } => Some(
            WarmStepModel {
                keys: seq![line(width), line(rows.qkv)],
                op: Op::MatMul {
                    matrix: first_layer(LayerWeightSlot::QkvProj),
                    rhs: warm_value(0),
                    out: ValueId(1),
                },
            },
        ),
        WarmModel::Matvec { len } => Some(
            WarmStepModel {
                keys: seq![half_key(seq![len]), half_key(seq![rows.head])],
                op: Op::MatVec {
                    matrix: TensorRef::Weight(WeightRef::LmHead),
                    vector: warm_value(0),
                    out: ValueId(1),
                },
            },
        ),
        WarmModel::Norm { width, weight } => Some(
            WarmStepModel {
                keys: seq![line(width), line(width)],
                op: Op::RmsNorm {
                    x: warm_value(0),
                    weight: norm_weight(weight),
                    n: width,
                    out: ValueId(1),
                },
            },
        ),
        WarmModel::Rope { heads, head_dim, .. } => {
            let key = half_key(seq![1usize, heads, head_dim]);
            Some(
                WarmStepModel {
                    keys: seq![key, key],
                    op: Op::Rope { x: warm_value(0), out: ValueId(1) },
                },
            )
        },
        WarmModel::CacheUpdate { kv_heads, head_dim, .. } => {
            let key = half_key(seq![1usize, kv_heads, head_dim]);
            Some(
                WarmStepModel {
                    keys: seq![key, key],
                    op: Op::KvCacheUpdate {
                        layer_idx: 0,
                        new_k: warm_value(0),
                        new_v: warm_value(1),
                    },
                },
            )
        },
        WarmModel::Attend { q_len, heads, head_dim, .. } => {
            let key = half_key(seq![q_len, heads, head_dim]);
            Some(
                WarmStepModel {
                    keys: seq![key, key],
                    op: Op::Attention { layer_idx: 0, q: warm_value(0), out: ValueId(1) },
                },
            )
        },
        WarmModel::Add { width } => Some(
            WarmStepModel {
                keys: seq![line(width), line(width), line(width)],
                op: Op::Add { lhs: warm_value(0), rhs: warm_value(1), out: ValueId(2) },
            },
        ),
        WarmModel::SiluMul { width } => Some(
            WarmStepModel {
                keys: seq![line(width), line(width), line(width)],
                op: Op::SiluMul { gate: warm_value(0), up: warm_value(1), out: ValueId(2) },
            },
        ),
        WarmModel::GatherRow { width } => Some(
            WarmStepModel {
                keys: seq![line(width), half_key(seq![width])],
                op: Op::GatherRow { src: warm_value(0), row_idx: 0, out: ValueId(1) },
            },
        ),
        WarmModel::AddNorm { width } => Some(
            WarmStepModel {
                keys: seq![line(width), line(width), line(width), line(width)],
                op: Op::AddRmsNorm {
                    residual: warm_value(0),
                    x: warm_value(1),
                    weight: TensorRef::Weight(WeightRef::Norm),
                    n: width,
                    out: ValueId(2),
                    residual_out: ValueId(3),
                },
            },
        ),
        WarmModel::FusedPrefill { tokens, heads, kv_heads, head_dim } => {
            let q = half_key(seq![tokens, heads, head_dim]);
            let k = half_key(seq![tokens, kv_heads, head_dim]);
            Some(
                WarmStepModel {
                    keys: seq![q, k, k, q],
                    op: Op::QkNormRopeKvPrefill {
                        layer_idx: 0,
                        q: warm_value(0),
                        k: warm_value(1),
                        v: warm_value(2),
                        out: ValueId(3),
                    },
                },
            )
        },
        WarmModel::Argmax { .. } => None,
        WarmModel::Call { .. } => None,
        WarmModel::QuantMatvec { .. } => None,
    }
}

fn new_spec1(a: usize) -> (r: TensorSpec)
    ensures
        r@ == half_key(seq![a]),
{
    let shape: Vec<usize> = vec![a];
    assert(shape@ =~= seq![a]);
    TensorSpec::half(shape)
}

fn new_spec2(a: usize, b: usize) -> (r: TensorSpec)
    ensures
        r@ == half_key(seq![a, b]),
{
    let shape: Vec<usize> = vec![a, b];
    assert(shape@ =~= seq![a, b]);
    TensorSpec::half(shape)
}

fn new_spec3(a: usize, b: usize, c: usize) -> (r: TensorSpec)
    ensures
        r@ == half_key(seq![a, b, c]),
{
    let shape: Vec<usize> = vec![a, b, c];
    assert(shape@ =~= seq![a, b, c]);
    TensorSpec::half(shape)
}

/// The operation of a step that runs what is to be warmed, which is planned and run as one
/// of a real step. The search for the greatest logit, single kernels and products of parts
/// are none.
pub fn warm_step(w: &WarmOp, rows: WarmRows) -> (r: Option<WarmStep>)
    ensures
        match r {
            Some(x) => warm_step_spec(w@, rows) == Some(x@),
            None => warm_step_spec(w@, rows) is None,
        },
{
    let v0 = TensorRef::Value(ValueId(0));
    let v1 = TensorRef::Value(ValueId(1));
    let v2 = TensorRef::Value(ValueId(2));
    let last = TensorRef::Weight(WeightRef::Norm);
    let (specs, op): (Vec<TensorSpec>, GraphOp) = match *w {
        WarmOp::Embed { .. } => (
            vec![new_spec2(1, rows.hidden)],
            Op::EmbeddingBatch { out: ValueId(0) },
        ),
        WarmOp::Matmul { width } => (
            vec![new_spec2(1, width), new_spec2(1, rows.qkv)],
            Op::MatMul {
                matrix: TensorRef::Weight(
                    WeightRef::Layer { layer_idx: 0, slot: LayerWeightSlot::QkvProj },
                ),
                rhs: v0,
                out: ValueId(1),
            },
        ),
        WarmOp::Matvec { len } => (
            vec![new_spec1(len), new_spec1(rows.head)],
            Op::MatVec {
                matrix: TensorRef::Weight(WeightRef::LmHead),
                vector: v0,
                out: ValueId(1),
            },
        ),
        WarmOp::Norm { width, weight } => (
            vec![new_spec2(1, width), new_spec2(1, width)],
            Op::RmsNorm {
                x: v0,
                weight: match weight {
                    NormWeight::Final => last,
                    NormWeight::Query => TensorRef::Weight(
                        WeightRef::Layer { layer_idx: 0, slot: LayerWeightSlot::QNorm },
                    ),
                },
                n: width,
                out: ValueId(1),
            },
        ),
        WarmOp::Rope { heads, head_dim, .. } => (
            vec![new_spec3(1, heads, head_dim), new_spec3(1, heads, head_dim)],
            Op::Rope { x: v0, out: ValueId(1) },
        ),
        WarmOp::CacheUpdate { kv_heads, head_dim, .. } => (
            vec![new_spec3(1, kv_heads, head_dim), new_spec3(1, kv_heads, head_dim)],
            Op::KvCacheUpdate { layer_idx: 0, new_k: v0, new_v: v1 },
        ),
        WarmOp::Attend { q_len, heads, head_dim, .. } => (
            vec![new_spec3(q_len, heads, head_dim), new_spec3(q_len, heads, head_dim)],
            Op::Attention { layer_idx: 0, q: v0, out: ValueId(1) },
        ),
        WarmOp::Add { width } => (
            vec![new_spec2(1, width), new_spec2(1, width), new_spec2(1, width)],
            Op::Add { lhs: v0, rhs: v1, out: ValueId(2) },
        ),
        WarmOp::SiluMul { width } => (
            vec![new_spec2(1, width), new_spec2(1, width), new_spec2(1, width)],
            Op::SiluMul { gate: v0, up: v1, out: ValueId(2) },
        ),
        WarmOp::GatherRow { width } => (
            vec![new_spec2(1, width), new_spec1(width)],
            Op::GatherRow { src: v0, row_idx: 0, out: ValueId(1) },
        ),
        WarmOp::AddNorm { width } => (
            vec![
                new_spec2(1, width),
                new_spec2(1, width),
                new_spec2(1, width),
                new_spec2(1, width),
            ],
            Op::AddRmsNorm {
                residual: v0,
                x: v1,
                weight: last,
                n: width,
                out: ValueId(2),
                residual_out: ValueId(3),
            },
        ),
        WarmOp::FusedPrefill { tokens, heads, kv_heads, head_dim } => (
            vec![
                new_spec3(tokens, heads, head_dim),
                new_spec3(tokens, kv_heads, head_dim),
                new_spec3(tokens, kv_heads, head_dim),
                new_spec3(tokens, heads, head_dim),
            ],
            Op::QkNormRopeKvPrefill { layer_idx: 0, q: v0, k: v1, v: v2, out: ValueId(3) },
        ),
        WarmOp::Argmax { .. } => {
            return None;
        },
        WarmOp::Call { .. } => {
            return None;
        },
        WarmOp::QuantMatvec { .. } => {
            return None;
        },
    };
    let step = WarmStep { specs, op };
    assert(step@.keys =~= warm_step_spec(w@, rows)->Some_0.keys);
    assert(step@ =~= warm_step_spec(w@, rows)->Some_0);
    Some(step)
}

/// A warm-up has the sizes of a step: hidden states for what works on them, the middle of the
/// feed-forward part for its gate, all logits for the search, and the heads of the model for
/// what works on heads; what reads its position from the device does so in all three kernels.
pub proof fn law_warm_up_has_the_sizes_of_a_step(d: WarmDims, eos: Seq<u32>, parts: Seq<Part>)
    ensures
        warm_ops(KernelKind::Gemm, d, eos, parts) == seq![WarmModel::Matmul { width: d.hidden }],
        warm_ops(KernelKind::Gemv, d, eos, parts) == seq![WarmModel::Matvec { len: d.hidden }],
        warm_ops(KernelKind::AddVec, d, eos, parts) == seq![WarmModel::Add { width: d.hidden }],
        warm_ops(KernelKind::GatherRow, d, eos, parts) == seq![
            WarmModel::GatherRow { width: d.hidden },
        ],
        warm_ops(KernelKind::AddRmsNorm, d, eos, parts) == seq![
            WarmModel::AddNorm { width: d.hidden },
        ],
        warm_ops(KernelKind::SiluMul, d, eos, parts) == seq![
            WarmModel::SiluMul { width: d.intermediate },
        ],
        warm_ops(KernelKind::ArgmaxBlocks, d, eos, parts) == seq![
            WarmModel::Argmax { len: d.vocab },
        ],
        warm_ops(KernelKind::RmsNorm, d, eos, parts) == seq![
            WarmModel::Norm { width: d.hidden, weight: NormWeight::Final },
            WarmModel::Norm { width: d.head_dim, weight: NormWeight::Query },
        ],
        decode_warm(d).len() == 3,
        decode_warm(d)[0] == (WarmModel::Rope {
            heads: d.heads,
            head_dim: d.head_dim,
            device_position: true,
        }),
        decode_warm(d)[1] == (WarmModel::CacheUpdate {
            kv_heads: d.kv_heads,
            head_dim: d.head_dim,
            device_position: true,
        }),
        decode_warm(d)[2] == (WarmModel::Attend {
            q_len: 1,
            heads: d.heads,
            head_dim: d.head_dim,
            device_position: true,
        }),
{
}

} // verus!
