//! The steps that compute one token, which are recorded once and replayed.
use crate::attention::{ATTN_BM_DECODE, ATTN_BN_DECODE, KV_CACHE_DYN_CHUNK_D_DEFAULT};
use crate::graph::{LayerWeightSlot, WeightRef};
use crate::kernel::{
    compile_options_with_occupancy, occupancy_hint, CallModel, Grid, Hint, Kernel, KernelCall,
};
use crate::knobs::{
    argmax_reduce_block_size, bool_hint_or, bool_or, ceil_pow2, env_bool_hint_or, env_bool_or,
    env_usize_hint_or, env_usize_or, text_of, usize_hint_or, usize_or,
};
use crate::pointwise::{
    block_count, blocks_for, ADD_RMS_DECODE_BLOCK, ARGMAX_BLOCK, POINTWISE_BLOCK, RMS_BLOCK,
    RMS_BLOCK_HIDDEN,
};
use vstd::prelude::*;

verus! {

/// Elements of an embedding that are copied at once.
pub const EMBED_BLOCK: usize = 1024;

/// Parts of the cache that the attention of one token works on side by side.
pub const FMHA_NUM_KV_SPLITS_DEFAULT: usize = 16;

/// Loads that the attention of one token keeps in flight.
pub const FMHA_DECODE_LATENCY_DEFAULT: usize = 4;

/// Blocks of the attention of one token that share a multiprocessor.
pub const FMHA_DECODE_OCCUPANCY_DEFAULT: usize = 2;

/// Elements of a head that the merge of the parts works on at once.
pub const FMHA_MERGE_CHUNK_D_DEFAULT: usize = 16;

/// Loads that the merge of the parts keeps in flight.
pub const FMHA_MERGE_LATENCY_DEFAULT: usize = 2;

/// Loads that the rotary kernel keeps in flight.
pub const QK_ROPE_LATENCY_DEFAULT: usize = 2;

/// Blocks of the rotary kernel that share a multiprocessor.
pub const QK_ROPE_OCCUPANCY_DEFAULT: usize = 1;

/// Parts of the cache of the grouped attention kernel.
pub const FLASH_KV_SPLITS_DEFAULT: usize = 2;

/// Rows of the output head that are reduced at once where that is one kernel.
pub const LM_HEAD_ARGMAX_ROWS: usize = 64;

/// Columns of the output head that are read at once there.
pub const LM_HEAD_ARGMAX_COLS: usize = 32;

/// The variables that tune the steps of one token, as they are set.
#[derive(Clone, Copy, Debug)]
pub struct DecodeEnv<'a> {
    pub attn_bn: Option<&'a str>,
    pub flash_decode: Option<&'a str>,
    pub rms_block: Option<&'a str>,
    pub embed_block: Option<&'a str>,
    pub fused_lm_head_argmax: Option<&'a str>,
    pub argmax_block: Option<&'a str>,
    pub kv_splits: Option<&'a str>,
    pub decode_latency: Option<&'a str>,
    pub decode_occupancy: Option<&'a str>,
    pub split_kv: Option<&'a str>,
    pub merge_chunk_d: Option<&'a str>,
    pub merge_latency: Option<&'a str>,
    pub rope_latency: Option<&'a str>,
    pub fused_rope: Option<&'a str>,
    pub rope_occupancy: Option<&'a str>,
    pub rope_cga: Option<&'a str>,
    pub kv_chunk_d: Option<&'a str>,
    pub flash_kv_splits: Option<&'a str>,
}

/// Which attention kernels compute one token.
#[derive(Clone, Copy, Debug, PartialEq, Eq, Structural)]
pub enum DecodeAttention {
    /// One kernel for heads that share keys.
    Grouped,
    /// A kernel for parts of the cache, and one that merges the parts.
    Split,
    /// One kernel for each head.
    Plain,
}

/// How the steps of one token are tuned.
#[derive(Clone, Copy, Debug)]
pub struct DecodeKnobs {
    pub attn_bn: usize,
    pub attention: DecodeAttention,
    pub rms_block: usize,
    pub embed_block: usize,
    /// Whether the output head and the search for the greatest logit are one kernel.
    pub fused_lm_head: bool,
    pub argmax_block: usize,
    pub kv_splits: usize,
    pub decode_latency: usize,
    pub decode_occupancy: Option<usize>,
    pub merge_chunk_d: usize,
    pub merge_latency: usize,
    pub rope_latency: usize,
    /// Whether norm, rotary embedding and cache update are one kernel.
    pub fused_rope: bool,
    pub rope_hint: Hint,
    pub kv_chunk_d: usize,
    pub flash_kv_splits: usize,
}

/// What the model and its settings say about the steps of one token.
#[derive(Clone, Copy, Debug, PartialEq, Eq, Structural)]
pub struct DecodeMode {
    /// The output head is one unquantized matrix.
    pub plain_lm_head: bool,
    pub device_argmax: bool,
    pub sampling: bool,
    pub debug_logits: bool,
}

/// Sizes of the model.
#[derive(Clone, Copy, Debug, PartialEq, Eq, Structural)]
pub struct DecodeDims {
    pub hidden: usize,
    pub heads: usize,
    pub kv_heads: usize,
    pub head_dim: usize,
    pub inter: usize,
    pub vocab: usize,
    pub layers: usize,
    pub max_seq_len: usize,
    /// Elements of the scratch vector for quantized products.
    pub tmp_rows: usize,
}

/// Whether the output head and the search for the greatest logit can be one kernel.
pub open spec fn fuses_lm_head(asked: bool, mode: DecodeMode, d: DecodeDims) -> bool {
    asked && mode.plain_lm_head && mode.device_argmax && !mode.sampling && !mode.debug_logits
        && d.vocab % LM_HEAD_ARGMAX_ROWS == 0 && d.hidden % LM_HEAD_ARGMAX_COLS == 0
}

/// Pairing blocks and sharing multiprocessors exclude each other; pairing goes first.
pub open spec fn rope_hint_of(cga: Option<bool>, occupancy: Option<usize>) -> Hint {
    if cga == Some(true) {
        Hint::Clustered
    } else {
        occupancy_hint(occupancy)
    }
}

/// What the variables say, and the defaults where they say nothing.
pub open spec fn decode_knobs_of(env: DecodeEnv, mode: DecodeMode, d: DecodeDims) -> DecodeKnobs {
    let flash = bool_or(text_of(env.flash_decode), false);
    let fused_lm_head = fuses_lm_head(
        bool_or(text_of(env.fused_lm_head_argmax), false),
        mode,
        d,
    );
    DecodeKnobs {
        attn_bn: usize_or(text_of(env.attn_bn), ATTN_BN_DECODE),
        attention: if flash {
            DecodeAttention::Grouped
        } else if bool_or(text_of(env.split_kv), true) {
            DecodeAttention::Split
        } else {
            DecodeAttention::Plain
        },
        rms_block: usize_or(text_of(env.rms_block), ADD_RMS_DECODE_BLOCK),
        embed_block: usize_or(text_of(env.embed_block), EMBED_BLOCK),
        fused_lm_head,
        argmax_block: if fused_lm_head {
            LM_HEAD_ARGMAX_ROWS
        } else {
            usize_or(text_of(env.argmax_block), ARGMAX_BLOCK)
        },
        kv_splits: usize_or(text_of(env.kv_splits), FMHA_NUM_KV_SPLITS_DEFAULT),
        decode_latency: usize_or(text_of(env.decode_latency), FMHA_DECODE_LATENCY_DEFAULT),
        decode_occupancy: usize_hint_or(
            text_of(env.decode_occupancy),
            FMHA_DECODE_OCCUPANCY_DEFAULT,
        ),
        merge_chunk_d: usize_or(text_of(env.merge_chunk_d), FMHA_MERGE_CHUNK_D_DEFAULT),
        merge_latency: usize_or(text_of(env.merge_latency), FMHA_MERGE_LATENCY_DEFAULT),
        rope_latency: usize_or(text_of(env.rope_latency), QK_ROPE_LATENCY_DEFAULT),
        fused_rope: bool_or(text_of(env.fused_rope), true),
        rope_hint: rope_hint_of(
            bool_hint_or(text_of(env.rope_cga), false),
            usize_hint_or(text_of(env.rope_occupancy), QK_ROPE_OCCUPANCY_DEFAULT),
        ),
        kv_chunk_d: usize_or(text_of(env.kv_chunk_d), KV_CACHE_DYN_CHUNK_D_DEFAULT),
        flash_kv_splits: usize_or(text_of(env.flash_kv_splits), FLASH_KV_SPLITS_DEFAULT),
    }
}

/// Reads the variables that tune the steps of one token.
pub fn read_decode_knobs(env: DecodeEnv, mode: DecodeMode, d: DecodeDims) -> (r: DecodeKnobs)
    ensures
        r == decode_knobs_of(env, mode, d),
{
    let flash: bool = env_bool_or(env.flash_decode, false);
    let fused_lm_head: bool = env_bool_or(env.fused_lm_head_argmax, false) && mode.plain_lm_head
        && mode.device_argmax && !mode.sampling && !mode.debug_logits && d.vocab
        % LM_HEAD_ARGMAX_ROWS == 0 && d.hidden % LM_HEAD_ARGMAX_COLS == 0;
    let occupancy: Option<usize> = env_usize_hint_or(
        env.rope_occupancy,
        QK_ROPE_OCCUPANCY_DEFAULT,
    );
    let clustered: bool = match env_bool_hint_or(env.rope_cga, false) {
        Some(b) => b,
        None => false,
    };
    DecodeKnobs {
        attn_bn: env_usize_or(env.attn_bn, ATTN_BN_DECODE),
        attention: if flash {
            DecodeAttention::Grouped
        } else if env_bool_or(env.split_kv, true) {
            DecodeAttention::Split
        } else {
            DecodeAttention::Plain
        },
        rms_block: env_usize_or(env.rms_block, ADD_RMS_DECODE_BLOCK),
        embed_block: env_usize_or(env.embed_block, EMBED_BLOCK),
        fused_lm_head,
        argmax_block: if fused_lm_head {
            LM_HEAD_ARGMAX_ROWS
        } else {
            env_usize_or(env.argmax_block, ARGMAX_BLOCK)
        },
        kv_splits: env_usize_or(env.kv_splits, FMHA_NUM_KV_SPLITS_DEFAULT),
        decode_latency: env_usize_or(env.decode_latency, FMHA_DECODE_LATENCY_DEFAULT),
        decode_occupancy: env_usize_hint_or(
            env.decode_occupancy,
            FMHA_DECODE_OCCUPANCY_DEFAULT,
        ),
        merge_chunk_d: env_usize_or(env.merge_chunk_d, FMHA_MERGE_CHUNK_D_DEFAULT),
        merge_latency: env_usize_or(env.merge_latency, FMHA_MERGE_LATENCY_DEFAULT),
        rope_latency: env_usize_or(env.rope_latency, QK_ROPE_LATENCY_DEFAULT),
        fused_rope: env_bool_or(env.fused_rope, true),
        rope_hint: if clustered {
            Hint::Clustered
        } else {
            compile_options_with_occupancy(occupancy)
        },
        kv_chunk_d: env_usize_or(env.kv_chunk_d, KV_CACHE_DYN_CHUNK_D_DEFAULT),
        flash_kv_splits: env_usize_or(env.flash_kv_splits, FLASH_KV_SPLITS_DEFAULT),
    }
}

/// Buffers of the device that the steps of one token work on.
#[derive(Clone, Copy, Debug, PartialEq, Eq, Structural)]
pub enum Buf {
    TokenIds,
    Position,
    KvLength,
    Hidden,
    Normed,
    Qkv,
    QkNormFlat,
    QkRope,
    AttnOut,
    AttnProj,
    FfNormed,
    HiddenAfterAttn,
    GateUp,
    Ff,
    FfDown,
    Logits,
    LseScratch,
    ArgmaxBlockMax,
    ArgmaxBlockIdx,
    FmhaAttPartial,
    FmhaLsePartial,
    QuantGemvTmp,
    KCache(usize),
    VCache(usize),
    InvFreq,
    Weight(WeightRef),
}

/// A shape of up to three dimensions.
#[derive(Clone, Copy, Debug, PartialEq, Eq, Structural)]
pub enum Shape {
    D1(usize),
    D2(usize, usize),
    D3(usize, usize, usize),
}

impl Shape {
    /// Elements of the shape.
    pub open spec fn elems(self) -> int {
        match self {
            Shape::D1(a) => a as int,
            Shape::D2(a, b) => a * b,
            Shape::D3(a, b, c) => (a * b) * c,
        }
    }
}

/// A stretch of a buffer from element `from` on, read or written in some shape.
#[derive(Clone, Copy, Debug, PartialEq, Eq, Structural)]
pub struct Piece {
    pub buf: Buf,
    pub from: usize,
    pub shape: Shape,
}

/// What a step does.
#[derive(Debug)]
pub enum Action {
    /// Embeds the token.
    Embed,
    /// Multiplies a vector by a weight.
    Gemv(WeightRef),
    /// Calls a kernel.
    Call(KernelCall),
}

/// What an action is.
#[verifier::ext_equal]
pub enum ActionModel {
    Embed,
    Gemv(WeightRef),
    Call(CallModel),
}

impl View for Action {
    type V = ActionModel;

    open spec fn view(&self) -> ActionModel {
        match *self {
            Action::Embed => ActionModel::Embed,
            Action::Gemv(w) => ActionModel::Gemv(w),
            Action::Call(c) => ActionModel::Call(c@),
        }
    }
}

/// A step: what it does, and which stretches of buffers it reads and writes.
#[derive(Debug)]
pub struct DecodeStep {
    pub action: Action,
    pub reads: Vec<Piece>,
    pub writes: Vec<Piece>,
}

/// What a step is.
#[verifier::ext_equal]
pub struct StepModel {
    pub action: ActionModel,
    pub reads: Seq<Piece>,
    pub writes: Seq<Piece>,
}

impl View for DecodeStep {
    type V = StepModel;

    open spec fn view(&self) -> StepModel {
        StepModel { action: self.action@, reads: self.reads@, writes: self.writes@ }
    }
}

/// What steps are.
pub open spec fn decode_models(s: Seq<DecodeStep>) -> Seq<StepModel> {
    s.map_values(|x: DecodeStep| x@)
}

/// Width of all query heads.
pub open spec fn attn_width(p: DecodeDims) -> usize {
    (p.heads * p.head_dim) as usize
}

/// Width of all key or value heads.
pub open spec fn kv_width(p: DecodeDims) -> usize {
    (p.kv_heads * p.head_dim) as usize
}

/// Width of queries, keys and values together.
pub open spec fn qkv_width(p: DecodeDims) -> usize {
    (p.heads * p.head_dim + 2 * (p.kv_heads * p.head_dim)) as usize
}

/// Where the values begin among queries, keys and values.
pub open spec fn v_at(p: DecodeDims) -> usize {
    (p.heads * p.head_dim + p.kv_heads * p.head_dim) as usize
}

/// Query and key heads.
pub open spec fn all_heads(p: DecodeDims) -> usize {
    (p.heads + p.kv_heads) as usize
}

/// Width of gate and up projection together.
pub open spec fn gate_up_width(p: DecodeDims) -> usize {
    (2 * p.inter) as usize
}

/// Query heads that share keys.
pub open spec fn share(p: DecodeDims) -> usize {
    p.heads / p.kv_heads
}

/// Parts of the cache times query heads that share keys.
pub open spec fn split_rows(p: DecodeDims, k: DecodeKnobs) -> usize {
    (k.kv_splits * share(p)) as usize
}

/// The same for the grouped attention kernel.
pub open spec fn flash_rows(p: DecodeDims, k: DecodeKnobs) -> usize {
    (share(p) * k.flash_kv_splits) as usize
}

/// Blocks of logits of which the greatest is found first.
pub open spec fn argmax_blocks_of(p: DecodeDims, k: DecodeKnobs) -> usize {
    blocks_for(p.vocab as int, k.argmax_block as int) as usize
}

/// The sizes of the steps can be counted.
pub open spec fn decode_sizes(p: DecodeDims, k: DecodeKnobs) -> bool {
    &&& 1 <= p.kv_heads <= p.heads
    &&& p.heads * p.head_dim + 2 * (p.kv_heads * p.head_dim) <= usize::MAX
    &&& p.heads + p.kv_heads <= usize::MAX
    &&& 2 * p.inter <= usize::MAX
    &&& 1 <= k.argmax_block
    &&& p.vocab + k.argmax_block <= usize::MAX / 2
    &&& k.kv_splits * p.heads <= usize::MAX
    &&& 1 <= k.flash_kv_splits
    &&& p.max_seq_len + k.flash_kv_splits <= usize::MAX
    &&& p.kv_heads * (p.max_seq_len * p.head_dim) <= usize::MAX
    &&& p.heads * (k.flash_kv_splits * p.head_dim) <= usize::MAX
    &&& k.flash_kv_splits * p.heads <= usize::MAX
}

/// Whether the sizes of the steps of one token can be counted.
pub fn decode_fits(p: DecodeDims, k: DecodeKnobs) -> (r: bool)
    ensures
        r == decode_sizes(p, k),
{
    proof {
        assert(p.heads * p.head_dim >= 0) by (nonlinear_arith);
        assert(p.kv_heads * p.head_dim >= 0) by (nonlinear_arith);
    }
    if p.kv_heads < 1 || p.heads < p.kv_heads || k.argmax_block < 1 || k.flash_kv_splits < 1 {
        return false;
    }
    let all: Option<usize> = p.heads.checked_mul(p.head_dim);
    let of_keys: Option<usize> = p.kv_heads.checked_mul(p.head_dim);
    let heads_fit: bool = match (all, of_keys) {
        (Some(a), Some(b)) => a as u128 + 2 * (b as u128) <= usize::MAX as u128,
        _ => false,
    };
    if !heads_fit || p.heads as u128 + p.kv_heads as u128 > usize::MAX as u128 {
        return false;
    }
    if 2 * (p.inter as u128) > usize::MAX as u128 || p.vocab as u128 + k.argmax_block as u128 > (
    usize::MAX / 2) as u128 || p.max_seq_len as u128 + k.flash_kv_splits as u128
        > usize::MAX as u128 {
        return false;
    }
    if k.kv_splits.checked_mul(p.heads).is_none() || k.flash_kv_splits.checked_mul(
        p.heads,
    ).is_none() {
        return false;
    }
    let cache: Option<usize> = match p.max_seq_len.checked_mul(p.head_dim) {
        Some(n) => p.kv_heads.checked_mul(n),
        None => None,
    };
    let split: Option<usize> = match k.flash_kv_splits.checked_mul(p.head_dim) {
        Some(n) => p.heads.checked_mul(n),
        None => None,
    };
    proof {
        let a = p.max_seq_len * p.head_dim;
        let b = k.flash_kv_splits * p.head_dim;
        assert(a > usize::MAX ==> p.kv_heads * a > usize::MAX) by (nonlinear_arith)
            requires
                p.kv_heads >= 1,
        ;
        assert(b > usize::MAX ==> p.heads * b > usize::MAX) by (nonlinear_arith)
            requires
                p.heads >= 1,
        ;
    }
    cache.is_some() && split.is_some()
}

/// What `decode_sizes` says of single sizes.
pub proof fn lemma_decode_sizes(p: DecodeDims, k: DecodeKnobs)
    requires
        decode_sizes(p, k),
    ensures
        attn_width(p) == p.heads * p.head_dim,
        kv_width(p) == p.kv_heads * p.head_dim,
        qkv_width(p) == attn_width(p) + 2 * kv_width(p),
        v_at(p) == attn_width(p) + kv_width(p),
        all_heads(p) == p.heads + p.kv_heads,
        (p.heads + p.kv_heads) * p.head_dim == attn_width(p) + kv_width(p),
        1 <= share(p) <= p.heads,
        share(p) * p.kv_heads <= p.heads,
        split_rows(p, k) == k.kv_splits * share(p),
        flash_rows(p, k) == share(p) * k.flash_kv_splits,
        k.kv_splits * share(p) <= usize::MAX,
        share(p) * k.flash_kv_splits <= usize::MAX,
        0 <= p.max_seq_len * p.head_dim <= usize::MAX,
        0 <= k.flash_kv_splits * p.head_dim <= usize::MAX,
        0 <= share(p) * p.head_dim <= p.heads * p.head_dim,
        0 <= p.kv_heads * (share(p) * p.head_dim) <= p.heads * p.head_dim,
        0 <= share(p) * (k.flash_kv_splits * p.head_dim) <= p.heads * (k.flash_kv_splits
            * p.head_dim),
        0 <= p.kv_heads * (share(p) * (k.flash_kv_splits * p.head_dim)) <= p.heads * (
        k.flash_kv_splits * p.head_dim),
        0 <= p.kv_heads * (share(p) * k.flash_kv_splits) <= k.flash_kv_splits * p.heads,
        gate_up_width(p) == 2 * p.inter,
        argmax_blocks_of(p, k) == blocks_for(p.vocab as int, k.argmax_block as int),
        argmax_blocks_of(p, k) <= usize::MAX / 2,
{
    let g = share(p);
    let a = p.heads * p.head_dim;
    let kv = p.kv_heads * p.head_dim;
    assert(a >= 0 && kv >= 0 && (p.heads + p.kv_heads) * p.head_dim == a + kv) by (nonlinear_arith)
        requires
            a == p.heads * p.head_dim,
            kv == p.kv_heads * p.head_dim,
    ;
    assert(1 <= g <= p.heads && g * p.kv_heads <= p.heads) by (nonlinear_arith)
        requires
            g == p.heads / p.kv_heads,
            1 <= p.kv_heads <= p.heads,
    ;
    assert(0 <= k.kv_splits * g <= k.kv_splits * p.heads) by (nonlinear_arith)
        requires
            0 <= g <= p.heads,
    ;
    assert(0 <= g * k.flash_kv_splits <= k.flash_kv_splits * p.heads) by (nonlinear_arith)
        requires
            0 <= g <= p.heads,
    ;
    let c = p.max_seq_len * p.head_dim;
    assert(0 <= c <= p.kv_heads * c) by (nonlinear_arith)
        requires
            c == p.max_seq_len * p.head_dim,
            p.kv_heads >= 1,
    ;
    let f = k.flash_kv_splits * p.head_dim;
    assert(0 <= f <= p.heads * f) by (nonlinear_arith)
        requires
            f == k.flash_kv_splits * p.head_dim,
            p.heads >= 1,
    ;
    assert(0 <= g * p.head_dim <= a) by (nonlinear_arith)
        requires
            a == p.heads * p.head_dim,
            0 <= g <= p.heads,
    ;
    assert(0 <= p.kv_heads * (g * p.head_dim) <= a) by (nonlinear_arith)
        requires
            a == p.heads * p.head_dim,
            0 <= g,
            g * p.kv_heads <= p.heads,
    ;
    assert(0 <= g * f <= p.heads * f) by (nonlinear_arith)
        requires
            0 <= f,
            0 <= g <= p.heads,
    ;
    assert(0 <= p.kv_heads * (g * f) <= p.heads * f) by (nonlinear_arith)
        requires
            0 <= f,
            0 <= g,
            g * p.kv_heads <= p.heads,
    ;
    assert(0 <= p.kv_heads * (g * k.flash_kv_splits) <= k.flash_kv_splits * p.heads)
        by (nonlinear_arith)
        requires
            0 <= g,
            g * p.kv_heads <= p.heads,
    ;
    let b = blocks_for(p.vocab as int, k.argmax_block as int);
    assert(0 <= b <= p.vocab + k.argmax_block) by (nonlinear_arith)
        requires
            b == (p.vocab + k.argmax_block - 1) / k.argmax_block as int,
            k.argmax_block >= 1,
    ;
}

/// A stretch of a buffer.
pub open spec fn piece(buf: Buf, from: usize, shape: Shape) -> Piece {
    Piece { buf, from, shape }
}

fn new_piece(buf: Buf, from: usize, shape: Shape) -> (r: Piece)
    ensures
        r == piece(buf, from, shape),
{
    Piece { buf, from, shape }
}

/// A weight of layer `l`.
pub open spec fn layer_buf(l: usize, slot: LayerWeightSlot) -> Buf {
    Buf::Weight(WeightRef::Layer { layer_idx: l, slot })
}

fn new_layer_buf(l: usize, slot: LayerWeightSlot) -> (r: Buf)
    ensures
        r == layer_buf(l, slot),
{
    Buf::Weight(WeightRef::Layer { layer_idx: l, slot })
}

fn new_kernel(
    kernel: Kernel,
    tile: Vec<usize>,
    second_tile: Vec<usize>,
    ints: Vec<usize>,
    generics: Vec<usize>,
    grid: Option<Grid>,
    hint: Hint,
) -> (r: Action)
    ensures
        r@ == ActionModel::Call(
            CallModel {
                kernel,
                tile: tile@,
                second_tile: second_tile@,
                ints: ints@,
                generics: generics@,
                grid,
                hint,
            },
        ),
{
    Action::Call(KernelCall { kernel, tile, second_tile, ints, generics, grid, hint })
}

/// The embedding of the token.
pub open spec fn embed_step(p: DecodeDims) -> StepModel {
    StepModel {
        action: ActionModel::Embed,
        reads: seq![
            piece(Buf::TokenIds, 0, Shape::D1(1)),
        ],
        writes: seq![
            piece(Buf::Hidden, 0, Shape::D2(1, p.hidden)),
        ],
    }
}

fn new_embed_step(p: DecodeDims, k: DecodeKnobs) -> (r: DecodeStep)
    requires
        decode_sizes(p, k),
    ensures
        r@ == embed_step(p),
{
    proof {
        lemma_decode_sizes(p, k);
    }
    let action = Action::Embed;
    let reads: Vec<Piece> = vec![
        new_piece(Buf::TokenIds, 0, Shape::D1(1)),
    ];
    let writes: Vec<Piece> = vec![
        new_piece(Buf::Hidden, 0, Shape::D2(1, p.hidden)),
    ];
    let step = DecodeStep { action, reads, writes };
    assert(step@ =~~= embed_step(p));
    step
}

/// The norm before the first layer.
pub open spec fn first_norm_step(p: DecodeDims) -> StepModel {
    StepModel {
        action: ActionModel::Call(
            CallModel {
                kernel: Kernel::RmsNorm,
                tile: seq![1usize, p.hidden],
                second_tile: Seq::empty(),
                ints: Seq::empty(),
                generics: seq![p.hidden, RMS_BLOCK_HIDDEN],
                grid: None,
                hint: Hint::Default,
            },
        ),
        reads: seq![
            piece(Buf::Hidden, 0, Shape::D2(1, p.hidden)),
            piece(layer_buf(0, LayerWeightSlot::InputLayerNorm), 0, Shape::D1(p.hidden)),
        ],
        writes: seq![
            piece(Buf::Normed, 0, Shape::D2(1, p.hidden)),
        ],
    }
}

fn new_first_norm_step(p: DecodeDims, k: DecodeKnobs) -> (r: DecodeStep)
    requires
        decode_sizes(p, k),
    ensures
        r@ == first_norm_step(p),
{
    proof {
        lemma_decode_sizes(p, k);
    }
    let action = new_kernel(
        Kernel::RmsNorm,
        vec![1, p.hidden],
        Vec::new(),
        Vec::new(),
        vec![p.hidden, RMS_BLOCK_HIDDEN],
        None,
        Hint::Default,
    );
    let reads: Vec<Piece> = vec![
        new_piece(Buf::Hidden, 0, Shape::D2(1, p.hidden)),
        new_piece(new_layer_buf(0, LayerWeightSlot::InputLayerNorm), 0, Shape::D1(p.hidden)),
    ];
    let writes: Vec<Piece> = vec![
        new_piece(Buf::Normed, 0, Shape::D2(1, p.hidden)),
    ];
    let step = DecodeStep { action, reads, writes };
    assert(step@ =~~= first_norm_step(p));
    step
}

/// The residual sum of the layer before, and its norm.
pub open spec fn next_norm_step(p: DecodeDims, k: DecodeKnobs, l: usize) -> StepModel {
    StepModel {
        action: ActionModel::Call(
            CallModel {
                kernel: Kernel::AddRmsNormDecodeRaw,
                tile: Seq::empty(),
                second_tile: Seq::empty(),
                ints: Seq::empty(),
                generics: seq![p.hidden, k.rms_block],
                grid: Some(Grid { x: 1, y: 1, z: 1 }),
                hint: Hint::Default,
            },
        ),
        reads: seq![
            piece(Buf::HiddenAfterAttn, 0, Shape::D2(1, p.hidden)),
            piece(Buf::FfDown, 0, Shape::D2(1, p.hidden)),
            piece(layer_buf(l, LayerWeightSlot::InputLayerNorm), 0, Shape::D1(p.hidden)),
        ],
        writes: seq![
            piece(Buf::Normed, 0, Shape::D2(1, p.hidden)),
            piece(Buf::Hidden, 0, Shape::D2(1, p.hidden)),
        ],
    }
}

fn new_next_norm_step(p: DecodeDims, k: DecodeKnobs, l: usize) -> (r: DecodeStep)
    requires
        decode_sizes(p, k),
    ensures
        r@ == next_norm_step(p, k, l),
{
    proof {
        lemma_decode_sizes(p, k);
    }
    let action = new_kernel(
        Kernel::AddRmsNormDecodeRaw,
        Vec::new(),
        Vec::new(),
        Vec::new(),
        vec![p.hidden, k.rms_block],
        Some(Grid { x: 1, y: 1, z: 1 }),
        Hint::Default,
    );
    let reads: Vec<Piece> = vec![
        new_piece(Buf::HiddenAfterAttn, 0, Shape::D2(1, p.hidden)),
        new_piece(Buf::FfDown, 0, Shape::D2(1, p.hidden)),
        new_piece(new_layer_buf(l, LayerWeightSlot::InputLayerNorm), 0, Shape::D1(p.hidden)),
    ];
    let writes: Vec<Piece> = vec![
        new_piece(Buf::Normed, 0, Shape::D2(1, p.hidden)),
        new_piece(Buf::Hidden, 0, Shape::D2(1, p.hidden)),
    ];
    let step = DecodeStep { action, reads, writes };
    assert(step@ =~~= next_norm_step(p, k, l));
    step
}

/// Queries, keys and values.
pub open spec fn qkv_step(p: DecodeDims, l: usize) -> StepModel {
    StepModel {
        action: ActionModel::Gemv(WeightRef::Layer { layer_idx: l, slot: LayerWeightSlot::QkvProj }),
        reads: seq![
            piece(Buf::Normed, 0, Shape::D1(p.hidden)),
        ],
        writes: seq![
            piece(Buf::Qkv, 0, Shape::D2(1, qkv_width(p))),
        ],
    }
}

fn new_qkv_step(p: DecodeDims, k: DecodeKnobs, l: usize) -> (r: DecodeStep)
    requires
        decode_sizes(p, k),
    ensures
        r@ == qkv_step(p, l),
{
    proof {
        lemma_decode_sizes(p, k);
    }
    let qkv: usize = p.heads * p.head_dim + 2 * (p.kv_heads * p.head_dim);
    let action = Action::Gemv(WeightRef::Layer { layer_idx: l, slot: LayerWeightSlot::QkvProj });
    let reads: Vec<Piece> = vec![
        new_piece(Buf::Normed, 0, Shape::D1(p.hidden)),
    ];
    let writes: Vec<Piece> = vec![
        new_piece(Buf::Qkv, 0, Shape::D2(1, qkv)),
    ];
    let step = DecodeStep { action, reads, writes };
    assert(step@ =~~= qkv_step(p, l));
    step
}

/// Norm, rotary embedding and cache update in one.
pub open spec fn fused_rope_step(p: DecodeDims, l: usize) -> StepModel {
    StepModel {
        action: ActionModel::Call(
            CallModel {
                kernel: Kernel::QkNormRopeKvDecodeRaw,
                tile: Seq::empty(),
                second_tile: Seq::empty(),
                ints: seq![p.heads, p.kv_heads],
                generics: seq![p.head_dim, p.head_dim / 2, p.max_seq_len],
                grid: Some(Grid { x: all_heads(p), y: 2, z: 1 }),
                hint: Hint::Default,
            },
        ),
        reads: seq![
            piece(Buf::Qkv, 0, Shape::D2(1, qkv_width(p))),
            piece(layer_buf(l, LayerWeightSlot::QNorm), 0, Shape::D1(p.head_dim)),
            piece(layer_buf(l, LayerWeightSlot::KNorm), 0, Shape::D1(p.head_dim)),
            piece(Buf::InvFreq, 0, Shape::D1(p.head_dim / 2)),
            piece(Buf::Position, 0, Shape::D1(1)),
        ],
        writes: seq![
            piece(Buf::QkRope, 0, Shape::D3(1, all_heads(p), p.head_dim)),
            piece(Buf::KCache(l), 0, Shape::D3(p.kv_heads, p.max_seq_len, p.head_dim)),
            piece(Buf::VCache(l), 0, Shape::D3(p.kv_heads, p.max_seq_len, p.head_dim)),
        ],
    }
}

fn new_fused_rope_step(p: DecodeDims, k: DecodeKnobs, l: usize) -> (r: DecodeStep)
    requires
        decode_sizes(p, k),
    ensures
        r@ == fused_rope_step(p, l),
{
    proof {
        lemma_decode_sizes(p, k);
    }
    let qkv: usize = p.heads * p.head_dim + 2 * (p.kv_heads * p.head_dim);
    let all: usize = p.heads + p.kv_heads;
    let action = new_kernel(
        Kernel::QkNormRopeKvDecodeRaw,
        Vec::new(),
        Vec::new(),
        vec![p.heads, p.kv_heads],
        vec![p.head_dim, p.head_dim / 2, p.max_seq_len],
        Some(Grid { x: all, y: 2, z: 1 }),
        Hint::Default,
    );
    let reads: Vec<Piece> = vec![
        new_piece(Buf::Qkv, 0, Shape::D2(1, qkv)),
        new_piece(new_layer_buf(l, LayerWeightSlot::QNorm), 0, Shape::D1(p.head_dim)),
        new_piece(new_layer_buf(l, LayerWeightSlot::KNorm), 0, Shape::D1(p.head_dim)),
        new_piece(Buf::InvFreq, 0, Shape::D1(p.head_dim / 2)),
        new_piece(Buf::Position, 0, Shape::D1(1)),
    ];
    let writes: Vec<Piece> = vec![
        new_piece(Buf::QkRope, 0, Shape::D3(1, all, p.head_dim)),
        new_piece(Buf::KCache(l), 0, Shape::D3(p.kv_heads, p.max_seq_len, p.head_dim)),
        new_piece(Buf::VCache(l), 0, Shape::D3(p.kv_heads, p.max_seq_len, p.head_dim)),
    ];
    let step = DecodeStep { action, reads, writes };
    assert(step@ =~~= fused_rope_step(p, l));
    step
}

/// Norm of queries and keys.
pub open spec fn qk_norm_step(p: DecodeDims, l: usize) -> StepModel {
    StepModel {
        action: ActionModel::Call(
            CallModel {
                kernel: Kernel::QkNorm,
                tile: seq![1usize, p.head_dim],
                second_tile: Seq::empty(),
                ints: seq![p.heads],
                generics: seq![p.head_dim, RMS_BLOCK],
                grid: None,
                hint: Hint::Default,
            },
        ),
        reads: seq![
            piece(Buf::Qkv, 0, Shape::D2(p.heads, p.head_dim)),
            piece(Buf::Qkv, attn_width(p), Shape::D2(p.kv_heads, p.head_dim)),
            piece(layer_buf(l, LayerWeightSlot::QNorm), 0, Shape::D1(p.head_dim)),
            piece(layer_buf(l, LayerWeightSlot::KNorm), 0, Shape::D1(p.head_dim)),
        ],
        writes: seq![
            piece(Buf::QkNormFlat, 0, Shape::D2(all_heads(p), p.head_dim)),
        ],
    }
}

fn new_qk_norm_step(p: DecodeDims, k: DecodeKnobs, l: usize) -> (r: DecodeStep)
    requires
        decode_sizes(p, k),
    ensures
        r@ == qk_norm_step(p, l),
{
    proof {
        lemma_decode_sizes(p, k);
    }
    let attn: usize = p.heads * p.head_dim;
    let all: usize = p.heads + p.kv_heads;
    let action = new_kernel(
        Kernel::QkNorm,
        vec![1, p.head_dim],
        Vec::new(),
        vec![p.heads],
        vec![p.head_dim, RMS_BLOCK],
        None,
        Hint::Default,
    );
    let reads: Vec<Piece> = vec![
        new_piece(Buf::Qkv, 0, Shape::D2(p.heads, p.head_dim)),
        new_piece(Buf::Qkv, attn, Shape::D2(p.kv_heads, p.head_dim)),
        new_piece(new_layer_buf(l, LayerWeightSlot::QNorm), 0, Shape::D1(p.head_dim)),
        new_piece(new_layer_buf(l, LayerWeightSlot::KNorm), 0, Shape::D1(p.head_dim)),
    ];
    let writes: Vec<Piece> = vec![
        new_piece(Buf::QkNormFlat, 0, Shape::D2(all, p.head_dim)),
    ];
    let step = DecodeStep { action, reads, writes };
    assert(step@ =~~= qk_norm_step(p, l));
    step
}

/// Rotary embedding of queries and keys.
pub open spec fn qk_rope_step(p: DecodeDims, k: DecodeKnobs) -> StepModel {
    StepModel {
        action: ActionModel::Call(
            CallModel {
                kernel: Kernel::QkRopeDynpos,
                tile: seq![1usize, 1usize, p.head_dim / 2],
                second_tile: Seq::empty(),
                ints: seq![p.heads],
                generics: seq![p.head_dim, p.head_dim / 2, k.rope_latency],
                grid: None,
                hint: k.rope_hint,
            },
        ),
        reads: seq![
            piece(Buf::QkNormFlat, 0, Shape::D3(1, p.heads, p.head_dim)),
            piece(Buf::QkNormFlat, attn_width(p), Shape::D3(1, p.kv_heads, p.head_dim)),
            piece(Buf::InvFreq, 0, Shape::D1(p.head_dim / 2)),
            piece(Buf::Position, 0, Shape::D1(1)),
        ],
        writes: seq![
            piece(Buf::QkRope, 0, Shape::D3(1, all_heads(p), p.head_dim)),
        ],
    }
}

fn new_qk_rope_step(p: DecodeDims, k: DecodeKnobs) -> (r: DecodeStep)
    requires
        decode_sizes(p, k),
    ensures
        r@ == qk_rope_step(p, k),
{
    proof {
        lemma_decode_sizes(p, k);
    }
    let attn: usize = p.heads * p.head_dim;
    let all: usize = p.heads + p.kv_heads;
    let action = new_kernel(
        Kernel::QkRopeDynpos,
        vec![1, 1, p.head_dim / 2],
        Vec::new(),
        vec![p.heads],
        vec![p.head_dim, p.head_dim / 2, k.rope_latency],
        None,
        k.rope_hint,
    );
    let reads: Vec<Piece> = vec![
        new_piece(Buf::QkNormFlat, 0, Shape::D3(1, p.heads, p.head_dim)),
        new_piece(Buf::QkNormFlat, attn, Shape::D3(1, p.kv_heads, p.head_dim)),
        new_piece(Buf::InvFreq, 0, Shape::D1(p.head_dim / 2)),
        new_piece(Buf::Position, 0, Shape::D1(1)),
    ];
    let writes: Vec<Piece> = vec![
        new_piece(Buf::QkRope, 0, Shape::D3(1, all, p.head_dim)),
    ];
    let step = DecodeStep { action, reads, writes };
    assert(step@ =~~= qk_rope_step(p, k));
    step
}

/// Keys and values go to the cache.
pub open spec fn cache_update_step(p: DecodeDims, k: DecodeKnobs, l: usize) -> StepModel {
    StepModel {
        action: ActionModel::Call(
            CallModel {
                kernel: Kernel::KvCacheUpdateSeqDynpos,
                tile: seq![1usize, p.max_seq_len, k.kv_chunk_d],
                second_tile: seq![1usize, p.max_seq_len, k.kv_chunk_d],
                ints: seq![1usize],
                generics: seq![p.head_dim, k.kv_chunk_d, p.max_seq_len],
                grid: None,
                hint: Hint::Default,
            },
        ),
        reads: seq![
            piece(Buf::QkRope, attn_width(p), Shape::D3(1, p.kv_heads, p.head_dim)),
            piece(Buf::Qkv, v_at(p), Shape::D3(1, p.kv_heads, p.head_dim)),
            piece(Buf::Position, 0, Shape::D1(1)),
        ],
        writes: seq![
            piece(Buf::KCache(l), 0, Shape::D3(p.kv_heads, p.max_seq_len, p.head_dim)),
            piece(Buf::VCache(l), 0, Shape::D3(p.kv_heads, p.max_seq_len, p.head_dim)),
        ],
    }
}

fn new_cache_update_step(p: DecodeDims, k: DecodeKnobs, l: usize) -> (r: DecodeStep)
    requires
        decode_sizes(p, k),
    ensures
        r@ == cache_update_step(p, k, l),
{
    proof {
        lemma_decode_sizes(p, k);
    }
    let attn: usize = p.heads * p.head_dim;
    let v_from: usize = p.heads * p.head_dim + p.kv_heads * p.head_dim;
    let action = new_kernel(
        Kernel::KvCacheUpdateSeqDynpos,
        vec![1, p.max_seq_len, k.kv_chunk_d],
        vec![1, p.max_seq_len, k.kv_chunk_d],
        vec![1],
        vec![p.head_dim, k.kv_chunk_d, p.max_seq_len],
        None,
        Hint::Default,
    );
    let reads: Vec<Piece> = vec![
        new_piece(Buf::QkRope, attn, Shape::D3(1, p.kv_heads, p.head_dim)),
        new_piece(Buf::Qkv, v_from, Shape::D3(1, p.kv_heads, p.head_dim)),
        new_piece(Buf::Position, 0, Shape::D1(1)),
    ];
    let writes: Vec<Piece> = vec![
        new_piece(Buf::KCache(l), 0, Shape::D3(p.kv_heads, p.max_seq_len, p.head_dim)),
        new_piece(Buf::VCache(l), 0, Shape::D3(p.kv_heads, p.max_seq_len, p.head_dim)),
    ];
    let step = DecodeStep { action, reads, writes };
    assert(step@ =~~= cache_update_step(p, k, l));
    step
}

/// Attention over parts of the cache.
pub open spec fn split_attention_step(p: DecodeDims, k: DecodeKnobs, l: usize) -> StepModel {
    StepModel {
        action: ActionModel::Call(
            CallModel {
                kernel: Kernel::FmhaDecodeGqaSplit,
                tile: seq![1usize, share(p), p.head_dim],
                second_tile: seq![1usize, share(p)],
                ints: Seq::empty(),
                generics: seq![share(p), k.attn_bn, p.head_dim, k.kv_splits, k.decode_latency],
                grid: None,
                hint: occupancy_hint(k.decode_occupancy),
            },
        ),
        reads: seq![
            piece(Buf::QkRope, 0, Shape::D3(p.kv_heads, share(p), p.head_dim)),
            piece(Buf::KCache(l), 0, Shape::D3(p.kv_heads, p.max_seq_len, p.head_dim)),
            piece(Buf::VCache(l), 0, Shape::D3(p.kv_heads, p.max_seq_len, p.head_dim)),
            piece(Buf::Position, 0, Shape::D1(1)),
        ],
        writes: seq![
            piece(Buf::FmhaAttPartial, 0, Shape::D3(p.kv_heads, split_rows(p, k), p.head_dim)),
            piece(Buf::FmhaLsePartial, 0, Shape::D2(p.kv_heads, split_rows(p, k))),
        ],
    }
}

fn new_split_attention_step(p: DecodeDims, k: DecodeKnobs, l: usize) -> (r: DecodeStep)
    requires
        decode_sizes(p, k),
    ensures
        r@ == split_attention_step(p, k, l),
{
    proof {
        lemma_decode_sizes(p, k);
    }
    let group: usize = p.heads / p.kv_heads;
    let rows: usize = k.kv_splits * group;
    let hint: Hint = compile_options_with_occupancy(k.decode_occupancy);
    let action = new_kernel(
        Kernel::FmhaDecodeGqaSplit,
        vec![1, group, p.head_dim],
        vec![1, group],
        Vec::new(),
        vec![group, k.attn_bn, p.head_dim, k.kv_splits, k.decode_latency],
        None,
        hint,
    );
    let reads: Vec<Piece> = vec![
        new_piece(Buf::QkRope, 0, Shape::D3(p.kv_heads, group, p.head_dim)),
        new_piece(Buf::KCache(l), 0, Shape::D3(p.kv_heads, p.max_seq_len, p.head_dim)),
        new_piece(Buf::VCache(l), 0, Shape::D3(p.kv_heads, p.max_seq_len, p.head_dim)),
        new_piece(Buf::Position, 0, Shape::D1(1)),
    ];
    let writes: Vec<Piece> = vec![
        new_piece(Buf::FmhaAttPartial, 0, Shape::D3(p.kv_heads, rows, p.head_dim)),
        new_piece(Buf::FmhaLsePartial, 0, Shape::D2(p.kv_heads, rows)),
    ];
    let step = DecodeStep { action, reads, writes };
    assert(step@ =~~= split_attention_step(p, k, l));
    step
}

/// The parts become one.
pub open spec fn merge_attention_step(p: DecodeDims, k: DecodeKnobs) -> StepModel {
    StepModel {
        action: ActionModel::Call(
            CallModel {
                kernel: Kernel::SplitkReduceMerge,
                tile: seq![1usize, share(p), k.merge_chunk_d],
                second_tile: Seq::empty(),
                ints: Seq::empty(),
                generics: seq![
                    share(p),
                    p.head_dim,
                    k.merge_chunk_d,
                    k.kv_splits,
                    split_rows(p, k),
                    k.merge_latency,
                ],
                grid: None,
                hint: Hint::Default,
            },
        ),
        reads: seq![
            piece(Buf::FmhaAttPartial, 0, Shape::D3(p.kv_heads, split_rows(p, k), p.head_dim)),
            piece(Buf::FmhaLsePartial, 0, Shape::D2(p.kv_heads, split_rows(p, k))),
        ],
        writes: seq![
            piece(Buf::AttnOut, 0, Shape::D3(p.kv_heads, share(p), p.head_dim)),
        ],
    }
}

fn new_merge_attention_step(p: DecodeDims, k: DecodeKnobs) -> (r: DecodeStep)
    requires
        decode_sizes(p, k),
    ensures
        r@ == merge_attention_step(p, k),
{
    proof {
        lemma_decode_sizes(p, k);
    }
    let group: usize = p.heads / p.kv_heads;
    let rows: usize = k.kv_splits * group;
    let action = new_kernel(
        Kernel::SplitkReduceMerge,
        vec![1, group, k.merge_chunk_d],
        Vec::new(),
        Vec::new(),
        vec![group, p.head_dim, k.merge_chunk_d, k.kv_splits, rows, k.merge_latency],
        None,
        Hint::Default,
    );
    let reads: Vec<Piece> = vec![
        new_piece(Buf::FmhaAttPartial, 0, Shape::D3(p.kv_heads, rows, p.head_dim)),
        new_piece(Buf::FmhaLsePartial, 0, Shape::D2(p.kv_heads, rows)),
    ];
    let writes: Vec<Piece> = vec![
        new_piece(Buf::AttnOut, 0, Shape::D3(p.kv_heads, group, p.head_dim)),
    ];
    let step = DecodeStep { action, reads, writes };
    assert(step@ =~~= merge_attention_step(p, k));
    step
}

/// Attention head by head.
pub open spec fn plain_attention_step(p: DecodeDims, k: DecodeKnobs, l: usize) -> StepModel {
    StepModel {
        action: ActionModel::Call(
            CallModel {
                kernel: Kernel::FlashAttnCausalSeqDynpos,
                tile: seq![ATTN_BM_DECODE, 1usize, p.head_dim],
                second_tile: Seq::empty(),
                ints: seq![share(p)],
                generics: seq![ATTN_BM_DECODE, k.attn_bn, p.head_dim],
                grid: None,
                hint: Hint::Default,
            },
        ),
        reads: seq![
            piece(Buf::QkRope, 0, Shape::D3(1, p.heads, p.head_dim)),
            piece(Buf::KCache(l), 0, Shape::D3(p.kv_heads, p.max_seq_len, p.head_dim)),
            piece(Buf::VCache(l), 0, Shape::D3(p.kv_heads, p.max_seq_len, p.head_dim)),
            piece(Buf::Position, 0, Shape::D1(1)),
        ],
        writes: seq![
            piece(Buf::AttnOut, 0, Shape::D3(1, p.heads, p.head_dim)),
        ],
    }
}

fn new_plain_attention_step(p: DecodeDims, k: DecodeKnobs, l: usize) -> (r: DecodeStep)
    requires
        decode_sizes(p, k),
    ensures
        r@ == plain_attention_step(p, k, l),
{
    proof {
        lemma_decode_sizes(p, k);
    }
    let group: usize = p.heads / p.kv_heads;
    let action = new_kernel(
        Kernel::FlashAttnCausalSeqDynpos,
        vec![ATTN_BM_DECODE, 1, p.head_dim],
        Vec::new(),
        vec![group],
        vec![ATTN_BM_DECODE, k.attn_bn, p.head_dim],
        None,
        Hint::Default,
    );
    let reads: Vec<Piece> = vec![
        new_piece(Buf::QkRope, 0, Shape::D3(1, p.heads, p.head_dim)),
        new_piece(Buf::KCache(l), 0, Shape::D3(p.kv_heads, p.max_seq_len, p.head_dim)),
        new_piece(Buf::VCache(l), 0, Shape::D3(p.kv_heads, p.max_seq_len, p.head_dim)),
        new_piece(Buf::Position, 0, Shape::D1(1)),
    ];
    let writes: Vec<Piece> = vec![
        new_piece(Buf::AttnOut, 0, Shape::D3(1, p.heads, p.head_dim)),
    ];
    let step = DecodeStep { action, reads, writes };
    assert(step@ =~~= plain_attention_step(p, k, l));
    step
}

/// Attention of the heads that share keys, with the strides of queries, keys, values,
/// output and scratch.
pub open spec fn grouped_attention_step(p: DecodeDims, k: DecodeKnobs, l: usize) -> StepModel {
    StepModel {
        action: ActionModel::Call(
            CallModel {
                kernel: Kernel::AttentionDecodeGrouped,
                tile: Seq::empty(),
                second_tile: Seq::empty(),
                ints: seq![
                    // Queries: sizes, then strides.
                    1usize,
                    p.kv_heads,
                    share(p),
                    p.head_dim,
                    (p.kv_heads * (share(p) * p.head_dim)) as usize,
                    (share(p) * p.head_dim) as usize,
                    p.head_dim,
                    // Keys.
                    1usize,
                    p.kv_heads,
                    p.max_seq_len,
                    p.head_dim,
                    (p.kv_heads * (p.max_seq_len * p.head_dim)) as usize,
                    (p.max_seq_len * p.head_dim) as usize,
                    p.head_dim,
                    // Values.
                    1usize,
                    p.kv_heads,
                    p.max_seq_len,
                    p.head_dim,
                    (p.kv_heads * (p.max_seq_len * p.head_dim)) as usize,
                    (p.max_seq_len * p.head_dim) as usize,
                    p.head_dim,
                    // Output.
                    1usize,
                    p.kv_heads,
                    share(p),
                    k.flash_kv_splits,
                    p.head_dim,
                    (p.kv_heads * (share(p) * (k.flash_kv_splits * p.head_dim))) as usize,
                    (share(p) * (k.flash_kv_splits * p.head_dim)) as usize,
                    (k.flash_kv_splits * p.head_dim) as usize,
                    p.head_dim,
                    // Scratch.
                    1usize,
                    p.kv_heads,
                    share(p),
                    k.flash_kv_splits,
                    (p.kv_heads * (share(p) * k.flash_kv_splits)) as usize,
                    flash_rows(p, k),
                    k.flash_kv_splits,
                ],
                generics: seq![
                    p.head_dim,
                    k.attn_bn,
                    blocks_for(p.max_seq_len as int, k.flash_kv_splits as int) as usize,
                    share(p),
                    share(p),
                    k.flash_kv_splits,
                ],
                grid: Some(Grid { x: 1, y: p.kv_heads, z: k.flash_kv_splits }),
                hint: Hint::Default,
            },
        ),
        reads: seq![
            piece(Buf::QkRope, 0, Shape::D3(p.kv_heads, share(p), p.head_dim)),
            piece(Buf::KCache(l), 0, Shape::D3(p.kv_heads, p.max_seq_len, p.head_dim)),
            piece(Buf::VCache(l), 0, Shape::D3(p.kv_heads, p.max_seq_len, p.head_dim)),
            piece(Buf::KvLength, 0, Shape::D1(1)),
        ],
        writes: seq![
            piece(Buf::AttnOut, 0, Shape::D3(p.kv_heads, flash_rows(p, k), p.head_dim)),
            piece(Buf::LseScratch, 0, Shape::D2(p.kv_heads, flash_rows(p, k))),
        ],
    }
}

fn new_grouped_attention_step(p: DecodeDims, k: DecodeKnobs, l: usize) -> (r: DecodeStep)
    requires
        decode_sizes(p, k),
    ensures
        r@ == grouped_attention_step(p, k, l),
{
    proof {
        lemma_decode_sizes(p, k);
    }
    let group: usize = p.heads / p.kv_heads;
    let rows: usize = group * k.flash_kv_splits;
    let per_split: usize = block_count(p.max_seq_len, k.flash_kv_splits);
    let action = new_kernel(
        Kernel::AttentionDecodeGrouped,
        Vec::new(),
        Vec::new(),
        vec![
            // Queries: sizes, then strides.
            1,
            p.kv_heads,
            group,
            p.head_dim,
            p.kv_heads * (group * p.head_dim),
            group * p.head_dim,
            p.head_dim,
            // Keys.
            1,
            p.kv_heads,
            p.max_seq_len,
            p.head_dim,
            p.kv_heads * (p.max_seq_len * p.head_dim),
            p.max_seq_len * p.head_dim,
            p.head_dim,
            // Values.
            1,
            p.kv_heads,
            p.max_seq_len,
            p.head_dim,
            p.kv_heads * (p.max_seq_len * p.head_dim),
            p.max_seq_len * p.head_dim,
            p.head_dim,
            // Output.
            1,
            p.kv_heads,
            group,
            k.flash_kv_splits,
            p.head_dim,
            p.kv_heads * (group * (k.flash_kv_splits * p.head_dim)),
            group * (k.flash_kv_splits * p.head_dim),
            k.flash_kv_splits * p.head_dim,
            p.head_dim,
            // Scratch.
            1,
            p.kv_heads,
            group,
            k.flash_kv_splits,
            p.kv_heads * (group * k.flash_kv_splits),
            rows,
            k.flash_kv_splits,
        ],
        vec![p.head_dim, k.attn_bn, per_split, group, group, k.flash_kv_splits],
        Some(Grid { x: 1, y: p.kv_heads, z: k.flash_kv_splits }),
        Hint::Default,
    );
    let reads: Vec<Piece> = vec![
        new_piece(Buf::QkRope, 0, Shape::D3(p.kv_heads, group, p.head_dim)),
        new_piece(Buf::KCache(l), 0, Shape::D3(p.kv_heads, p.max_seq_len, p.head_dim)),
        new_piece(Buf::VCache(l), 0, Shape::D3(p.kv_heads, p.max_seq_len, p.head_dim)),
        new_piece(Buf::KvLength, 0, Shape::D1(1)),
    ];
    let writes: Vec<Piece> = vec![
        new_piece(Buf::AttnOut, 0, Shape::D3(p.kv_heads, rows, p.head_dim)),
        new_piece(Buf::LseScratch, 0, Shape::D2(p.kv_heads, rows)),
    ];
    let step = DecodeStep { action, reads, writes };
    assert(step@ =~~= grouped_attention_step(p, k, l));
    step
}

/// The output projection of the attention.
pub open spec fn o_proj_step(p: DecodeDims, l: usize) -> StepModel {
    StepModel {
        action: ActionModel::Gemv(WeightRef::Layer { layer_idx: l, slot: LayerWeightSlot::OProj }),
        reads: seq![
            piece(Buf::AttnOut, 0, Shape::D1(attn_width(p))),
        ],
        writes: seq![
            piece(Buf::AttnProj, 0, Shape::D2(1, p.hidden)),
        ],
    }
}

fn new_o_proj_step(p: DecodeDims, k: DecodeKnobs, l: usize) -> (r: DecodeStep)
    requires
        decode_sizes(p, k),
    ensures
        r@ == o_proj_step(p, l),
{
    proof {
        lemma_decode_sizes(p, k);
    }
    let attn: usize = p.heads * p.head_dim;
    let action = Action::Gemv(WeightRef::Layer { layer_idx: l, slot: LayerWeightSlot::OProj });
    let reads: Vec<Piece> = vec![
        new_piece(Buf::AttnOut, 0, Shape::D1(attn)),
    ];
    let writes: Vec<Piece> = vec![
        new_piece(Buf::AttnProj, 0, Shape::D2(1, p.hidden)),
    ];
    let step = DecodeStep { action, reads, writes };
    assert(step@ =~~= o_proj_step(p, l));
    step
}

/// The residual sum with the attention, and its norm.
pub open spec fn ff_norm_step(p: DecodeDims, k: DecodeKnobs, l: usize) -> StepModel {
    StepModel {
        action: ActionModel::Call(
            CallModel {
                kernel: Kernel::AddRmsNormDecodeRaw,
                tile: Seq::empty(),
                second_tile: Seq::empty(),
                ints: Seq::empty(),
                generics: seq![p.hidden, k.rms_block],
                grid: Some(Grid { x: 1, y: 1, z: 1 }),
                hint: Hint::Default,
            },
        ),
        reads: seq![
            piece(Buf::Hidden, 0, Shape::D2(1, p.hidden)),
            piece(Buf::AttnProj, 0, Shape::D2(1, p.hidden)),
            piece(layer_buf(l, LayerWeightSlot::PostAttentionLayerNorm), 0, Shape::D1(p.hidden)),
        ],
        writes: seq![
            piece(Buf::FfNormed, 0, Shape::D2(1, p.hidden)),
            piece(Buf::HiddenAfterAttn, 0, Shape::D2(1, p.hidden)),
        ],
    }
}

fn new_ff_norm_step(p: DecodeDims, k: DecodeKnobs, l: usize) -> (r: DecodeStep)
    requires
        decode_sizes(p, k),
    ensures
        r@ == ff_norm_step(p, k, l),
{
    proof {
        lemma_decode_sizes(p, k);
    }
    let action = new_kernel(
        Kernel::AddRmsNormDecodeRaw,
        Vec::new(),
        Vec::new(),
        Vec::new(),
        vec![p.hidden, k.rms_block],
        Some(Grid { x: 1, y: 1, z: 1 }),
        Hint::Default,
    );
    let reads: Vec<Piece> = vec![
        new_piece(Buf::Hidden, 0, Shape::D2(1, p.hidden)),
        new_piece(Buf::AttnProj, 0, Shape::D2(1, p.hidden)),
        new_piece(new_layer_buf(l, LayerWeightSlot::PostAttentionLayerNorm), 0, Shape::D1(p.hidden)),
    ];
    let writes: Vec<Piece> = vec![
        new_piece(Buf::FfNormed, 0, Shape::D2(1, p.hidden)),
        new_piece(Buf::HiddenAfterAttn, 0, Shape::D2(1, p.hidden)),
    ];
    let step = DecodeStep { action, reads, writes };
    assert(step@ =~~= ff_norm_step(p, k, l));
    step
}

/// Gate and up projection.
pub open spec fn gate_up_step(p: DecodeDims, l: usize) -> StepModel {
    StepModel {
        action: ActionModel::Gemv(WeightRef::Layer { layer_idx: l, slot: LayerWeightSlot::GateUpProj }),
        reads: seq![
            piece(Buf::FfNormed, 0, Shape::D1(p.hidden)),
        ],
        writes: seq![
            piece(Buf::GateUp, 0, Shape::D2(1, gate_up_width(p))),
        ],
    }
}

fn new_gate_up_step(p: DecodeDims, k: DecodeKnobs, l: usize) -> (r: DecodeStep)
    requires
        decode_sizes(p, k),
    ensures
        r@ == gate_up_step(p, l),
{
    proof {
        lemma_decode_sizes(p, k);
    }
    let gate_up: usize = 2 * p.inter;
    let action = Action::Gemv(WeightRef::Layer { layer_idx: l, slot: LayerWeightSlot::GateUpProj });
    let reads: Vec<Piece> = vec![
        new_piece(Buf::FfNormed, 0, Shape::D1(p.hidden)),
    ];
    let writes: Vec<Piece> = vec![
        new_piece(Buf::GateUp, 0, Shape::D2(1, gate_up)),
    ];
    let step = DecodeStep { action, reads, writes };
    assert(step@ =~~= gate_up_step(p, l));
    step
}

/// The gated product.
pub open spec fn silu_step(p: DecodeDims) -> StepModel {
    StepModel {
        action: ActionModel::Call(
            CallModel {
                kernel: Kernel::SiluMul2d,
                tile: seq![1usize, POINTWISE_BLOCK],
                second_tile: Seq::empty(),
                ints: Seq::empty(),
                generics: seq![POINTWISE_BLOCK],
                grid: None,
                hint: Hint::Default,
            },
        ),
        reads: seq![
            piece(Buf::GateUp, 0, Shape::D2(1, p.inter)),
            piece(Buf::GateUp, p.inter, Shape::D2(1, p.inter)),
        ],
        writes: seq![
            piece(Buf::Ff, 0, Shape::D2(1, p.inter)),
        ],
    }
}

fn new_silu_step(p: DecodeDims, k: DecodeKnobs) -> (r: DecodeStep)
    requires
        decode_sizes(p, k),
    ensures
        r@ == silu_step(p),
{
    proof {
        lemma_decode_sizes(p, k);
    }
    let action = new_kernel(
        Kernel::SiluMul2d,
        vec![1, POINTWISE_BLOCK],
        Vec::new(),
        Vec::new(),
        vec![POINTWISE_BLOCK],
        None,
        Hint::Default,
    );
    let reads: Vec<Piece> = vec![
        new_piece(Buf::GateUp, 0, Shape::D2(1, p.inter)),
        new_piece(Buf::GateUp, p.inter, Shape::D2(1, p.inter)),
    ];
    let writes: Vec<Piece> = vec![
        new_piece(Buf::Ff, 0, Shape::D2(1, p.inter)),
    ];
    let step = DecodeStep { action, reads, writes };
    assert(step@ =~~= silu_step(p));
    step
}

/// The down projection.
pub open spec fn down_step(p: DecodeDims, l: usize) -> StepModel {
    StepModel {
        action: ActionModel::Gemv(WeightRef::Layer { layer_idx: l, slot: LayerWeightSlot::DownProj }),
        reads: seq![
            piece(Buf::Ff, 0, Shape::D1(p.inter)),
        ],
        writes: seq![
            piece(Buf::FfDown, 0, Shape::D2(1, p.hidden)),
        ],
    }
}

fn new_down_step(p: DecodeDims, k: DecodeKnobs, l: usize) -> (r: DecodeStep)
    requires
        decode_sizes(p, k),
    ensures
        r@ == down_step(p, l),
{
    proof {
        lemma_decode_sizes(p, k);
    }
    let action = Action::Gemv(WeightRef::Layer { layer_idx: l, slot: LayerWeightSlot::DownProj });
    let reads: Vec<Piece> = vec![
        new_piece(Buf::Ff, 0, Shape::D1(p.inter)),
    ];
    let writes: Vec<Piece> = vec![
        new_piece(Buf::FfDown, 0, Shape::D2(1, p.hidden)),
    ];
    let step = DecodeStep { action, reads, writes };
    assert(step@ =~~= down_step(p, l));
    step
}

/// The residual sum of the last layer, and the final norm.
pub open spec fn final_norm_step(p: DecodeDims, k: DecodeKnobs) -> StepModel {
    StepModel {
        action: ActionModel::Call(
            CallModel {
                kernel: Kernel::AddRmsNormDecodeRaw,
                tile: Seq::empty(),
                second_tile: Seq::empty(),
                ints: Seq::empty(),
                generics: seq![p.hidden, k.rms_block],
                grid: Some(Grid { x: 1, y: 1, z: 1 }),
                hint: Hint::Default,
            },
        ),
        reads: seq![
            piece(Buf::HiddenAfterAttn, 0, Shape::D2(1, p.hidden)),
            piece(Buf::FfDown, 0, Shape::D2(1, p.hidden)),
            piece(Buf::Weight(WeightRef::Norm), 0, Shape::D1(p.hidden)),
        ],
        writes: seq![
            piece(Buf::Normed, 0, Shape::D2(1, p.hidden)),
            piece(Buf::Hidden, 0, Shape::D2(1, p.hidden)),
        ],
    }
}

fn new_final_norm_step(p: DecodeDims, k: DecodeKnobs) -> (r: DecodeStep)
    requires
        decode_sizes(p, k),
    ensures
        r@ == final_norm_step(p, k),
{
    proof {
        lemma_decode_sizes(p, k);
    }
    let action = new_kernel(
        Kernel::AddRmsNormDecodeRaw,
        Vec::new(),
        Vec::new(),
        Vec::new(),
        vec![p.hidden, k.rms_block],
        Some(Grid { x: 1, y: 1, z: 1 }),
        Hint::Default,
    );
    let reads: Vec<Piece> = vec![
        new_piece(Buf::HiddenAfterAttn, 0, Shape::D2(1, p.hidden)),
        new_piece(Buf::FfDown, 0, Shape::D2(1, p.hidden)),
        new_piece(Buf::Weight(WeightRef::Norm), 0, Shape::D1(p.hidden)),
    ];
    let writes: Vec<Piece> = vec![
        new_piece(Buf::Normed, 0, Shape::D2(1, p.hidden)),
        new_piece(Buf::Hidden, 0, Shape::D2(1, p.hidden)),
    ];
    let step = DecodeStep { action, reads, writes };
    assert(step@ =~~= final_norm_step(p, k));
    step
}

/// The output head and the greatest logit of each block in one.
pub open spec fn fused_lm_head_step(p: DecodeDims, k: DecodeKnobs) -> StepModel {
    StepModel {
        action: ActionModel::Call(
            CallModel {
                kernel: Kernel::LmHeadArgmaxBlocks,
                tile: seq![1usize],
                second_tile: seq![1usize],
                ints: seq![p.vocab],
                generics: seq![p.hidden],
                grid: None,
                hint: Hint::Default,
            },
        ),
        reads: seq![
            piece(Buf::Weight(WeightRef::LmHead), 0, Shape::D2(p.vocab, p.hidden)),
            piece(Buf::Normed, 0, Shape::D2(1, p.hidden)),
        ],
        writes: seq![
            piece(Buf::ArgmaxBlockMax, 0, Shape::D1(argmax_blocks_of(p, k))),
            piece(Buf::ArgmaxBlockIdx, 0, Shape::D1(argmax_blocks_of(p, k))),
        ],
    }
}

fn new_fused_lm_head_step(p: DecodeDims, k: DecodeKnobs) -> (r: DecodeStep)
    requires
        decode_sizes(p, k),
    ensures
        r@ == fused_lm_head_step(p, k),
{
    proof {
        lemma_decode_sizes(p, k);
    }
    let blocks: usize = block_count(p.vocab, k.argmax_block);
    let action = new_kernel(
        Kernel::LmHeadArgmaxBlocks,
        vec![1],
        vec![1],
        vec![p.vocab],
        vec![p.hidden],
        None,
        Hint::Default,
    );
    let reads: Vec<Piece> = vec![
        new_piece(Buf::Weight(WeightRef::LmHead), 0, Shape::D2(p.vocab, p.hidden)),
        new_piece(Buf::Normed, 0, Shape::D2(1, p.hidden)),
    ];
    let writes: Vec<Piece> = vec![
        new_piece(Buf::ArgmaxBlockMax, 0, Shape::D1(blocks)),
        new_piece(Buf::ArgmaxBlockIdx, 0, Shape::D1(blocks)),
    ];
    let step = DecodeStep { action, reads, writes };
    assert(step@ =~~= fused_lm_head_step(p, k));
    step
}

/// The logits.
pub open spec fn lm_head_step(p: DecodeDims) -> StepModel {
    StepModel {
        action: ActionModel::Gemv(WeightRef::LmHead),
        reads: seq![
            piece(Buf::Normed, 0, Shape::D1(p.hidden)),
        ],
        writes: seq![
            piece(Buf::Logits, 0, Shape::D1(p.vocab)),
        ],
    }
}

fn new_lm_head_step(p: DecodeDims, k: DecodeKnobs) -> (r: DecodeStep)
    requires
        decode_sizes(p, k),
    ensures
        r@ == lm_head_step(p),
{
    proof {
        lemma_decode_sizes(p, k);
    }
    let action = Action::Gemv(WeightRef::LmHead);
    let reads: Vec<Piece> = vec![
        new_piece(Buf::Normed, 0, Shape::D1(p.hidden)),
    ];
    let writes: Vec<Piece> = vec![
        new_piece(Buf::Logits, 0, Shape::D1(p.vocab)),
    ];
    let step = DecodeStep { action, reads, writes };
    assert(step@ =~~= lm_head_step(p));
    step
}

/// The greatest logit of each block.
pub open spec fn argmax_step(p: DecodeDims, k: DecodeKnobs) -> StepModel {
    StepModel {
        action: ActionModel::Call(
            CallModel {
                kernel: Kernel::ArgmaxBlocks,
                tile: seq![1usize],
                second_tile: seq![1usize],
                ints: seq![p.vocab],
                generics: seq![k.argmax_block],
                grid: None,
                hint: Hint::Default,
            },
        ),
        reads: seq![
            piece(Buf::Logits, 0, Shape::D1(p.vocab)),
        ],
        writes: seq![
            piece(Buf::ArgmaxBlockMax, 0, Shape::D1(argmax_blocks_of(p, k))),
            piece(Buf::ArgmaxBlockIdx, 0, Shape::D1(argmax_blocks_of(p, k))),
        ],
    }
}

fn new_argmax_step(p: DecodeDims, k: DecodeKnobs) -> (r: DecodeStep)
    requires
        decode_sizes(p, k),
    ensures
        r@ == argmax_step(p, k),
{
    proof {
        lemma_decode_sizes(p, k);
    }
    let blocks: usize = block_count(p.vocab, k.argmax_block);
    let action = new_kernel(
        Kernel::ArgmaxBlocks,
        vec![1],
        vec![1],
        vec![p.vocab],
        vec![k.argmax_block],
        None,
        Hint::Default,
    );
    let reads: Vec<Piece> = vec![
        new_piece(Buf::Logits, 0, Shape::D1(p.vocab)),
    ];
    let writes: Vec<Piece> = vec![
        new_piece(Buf::ArgmaxBlockMax, 0, Shape::D1(blocks)),
        new_piece(Buf::ArgmaxBlockIdx, 0, Shape::D1(blocks)),
    ];
    let step = DecodeStep { action, reads, writes };
    assert(step@ =~~= argmax_step(p, k));
    step
}

/// The greatest of the blocks is the next token; `b` blocks are reduced at once.
pub open spec fn reduce_step(p: DecodeDims, k: DecodeKnobs, b: usize) -> StepModel {
    StepModel {
        action: ActionModel::Call(
            CallModel {
                kernel: Kernel::ArgmaxReduceBlocks,
                tile: seq![1usize],
                second_tile: Seq::empty(),
                ints: seq![argmax_blocks_of(p, k)],
                generics: seq![b],
                grid: None,
                hint: Hint::Default,
            },
        ),
        reads: seq![
            piece(Buf::ArgmaxBlockMax, 0, Shape::D1(argmax_blocks_of(p, k))),
            piece(Buf::ArgmaxBlockIdx, 0, Shape::D1(argmax_blocks_of(p, k))),
        ],
        writes: seq![
            piece(Buf::TokenIds, 0, Shape::D1(1)),
        ],
    }
}

fn new_reduce_step(p: DecodeDims, k: DecodeKnobs, b: usize) -> (r: DecodeStep)
    requires
        decode_sizes(p, k),
    ensures
        r@ == reduce_step(p, k, b),
{
    proof {
        lemma_decode_sizes(p, k);
    }
    let blocks: usize = block_count(p.vocab, k.argmax_block);
    let action = new_kernel(
        Kernel::ArgmaxReduceBlocks,
        vec![1],
        Vec::new(),
        vec![blocks],
        vec![b],
        None,
        Hint::Default,
    );
    let reads: Vec<Piece> = vec![
        new_piece(Buf::ArgmaxBlockMax, 0, Shape::D1(blocks)),
        new_piece(Buf::ArgmaxBlockIdx, 0, Shape::D1(blocks)),
    ];
    let writes: Vec<Piece> = vec![
        new_piece(Buf::TokenIds, 0, Shape::D1(1)),
    ];
    let step = DecodeStep { action, reads, writes };
    assert(step@ =~~= reduce_step(p, k, b));
    step
}

/// Norm, rotary embedding and cache update of layer `l`.
pub open spec fn rope_steps(p: DecodeDims, k: DecodeKnobs, l: usize) -> Seq<StepModel> {
    if k.fused_rope {
        seq![fused_rope_step(p, l)]
    } else {
        seq![qk_norm_step(p, l), qk_rope_step(p, k), cache_update_step(p, k, l)]
    }
}

/// The attention of layer `l`.
pub open spec fn attention_steps(p: DecodeDims, k: DecodeKnobs, l: usize) -> Seq<StepModel> {
    match k.attention {
        DecodeAttention::Grouped => seq![grouped_attention_step(p, k, l)],
        DecodeAttention::Split => seq![split_attention_step(p, k, l), merge_attention_step(p, k)],
        DecodeAttention::Plain => seq![plain_attention_step(p, k, l)],
    }
}

/// The feed-forward part of layer `l`. Its residual sum is left to the norm that follows.
pub open spec fn ff_steps(p: DecodeDims, k: DecodeKnobs, l: usize) -> Seq<StepModel> {
    seq![
        o_proj_step(p, l),
        ff_norm_step(p, k, l),
        gate_up_step(p, l),
        silu_step(p),
        down_step(p, l),
    ]
}

/// The norm before layer `l` and its projection to queries, keys and values.
pub open spec fn front_steps(p: DecodeDims, k: DecodeKnobs, l: usize) -> Seq<StepModel> {
    if l == 0 {
        seq![first_norm_step(p), qkv_step(p, l)]
    } else {
        seq![next_norm_step(p, k, l), qkv_step(p, l)]
    }
}

/// The steps of layer `l`.
pub open spec fn layer_steps(p: DecodeDims, k: DecodeKnobs, l: usize) -> Seq<StepModel> {
    front_steps(p, k, l) + rope_steps(p, k, l) + attention_steps(p, k, l) + ff_steps(p, k, l)
}

/// The embedding and the first `n` layers.
pub open spec fn body_steps(p: DecodeDims, k: DecodeKnobs, n: int) -> Seq<StepModel>
    decreases n,
{
    if n <= 0 {
        seq![embed_step(p)]
    } else {
        body_steps(p, k, n - 1) + layer_steps(p, k, (n - 1) as usize)
    }
}

/// From the last layer to the next token.
pub open spec fn tail_steps(p: DecodeDims, k: DecodeKnobs) -> Seq<StepModel> {
    let b = ceil_pow2(argmax_blocks_of(p, k) as nat) as usize;
    if k.fused_lm_head {
        seq![final_norm_step(p, k), fused_lm_head_step(p, k), reduce_step(p, k, b)]
    } else {
        seq![
            final_norm_step(p, k),
            lm_head_step(p),
            argmax_step(p, k),
            reduce_step(p, k, b),
        ]
    }
}

/// All steps of one token.
pub open spec fn decode_steps(p: DecodeDims, k: DecodeKnobs) -> Seq<StepModel> {
    body_steps(p, k, p.layers as int) + tail_steps(p, k)
}

fn add_step(steps: &mut Vec<DecodeStep>, step: DecodeStep)
    ensures
        decode_models(final(steps)@) == decode_models(old(steps)@).push(step@),
{
    let ghost before = decode_models(steps@);
    steps.push(step);
    assert(decode_models(steps@) =~= before.push(step@));
}

fn add_layer(steps: &mut Vec<DecodeStep>, p: DecodeDims, k: DecodeKnobs, l: usize)
    requires
        decode_sizes(p, k),
    ensures
        decode_models(final(steps)@) == decode_models(old(steps)@) + layer_steps(p, k, l),
{
    let ghost before = decode_models(steps@);
    if l == 0 {
        add_step(steps, new_first_norm_step(p, k));
    } else {
        add_step(steps, new_next_norm_step(p, k, l));
    }
    add_step(steps, new_qkv_step(p, k, l));
    if k.fused_rope {
        add_step(steps, new_fused_rope_step(p, k, l));
    } else {
        add_step(steps, new_qk_norm_step(p, k, l));
        add_step(steps, new_qk_rope_step(p, k));
        add_step(steps, new_cache_update_step(p, k, l));
    }
    match k.attention {
        DecodeAttention::Grouped => {
            add_step(steps, new_grouped_attention_step(p, k, l));
        },
        DecodeAttention::Split => {
            add_step(steps, new_split_attention_step(p, k, l));
            add_step(steps, new_merge_attention_step(p, k));
        },
        DecodeAttention::Plain => {
            add_step(steps, new_plain_attention_step(p, k, l));
        },
    }
    add_step(steps, new_o_proj_step(p, k, l));
    add_step(steps, new_ff_norm_step(p, k, l));
    add_step(steps, new_gate_up_step(p, k, l));
    add_step(steps, new_silu_step(p, k));
    add_step(steps, new_down_step(p, k, l));
    assert(decode_models(steps@) =~= before + layer_steps(p, k, l));
}

/// Why the steps of one token cannot be recorded.
#[derive(Clone, Copy, Debug, PartialEq, Eq, Structural)]
pub enum DecodeError {
    /// The position does not fit an unsigned 32-bit number.
    Position { position: usize },
}

/// The largest unsigned 32-bit number.
pub const U32_MAX: usize = 0xffff_ffff;

/// The steps of one token from `position` on. They run once to compile their kernels, and
/// are then recorded.
pub fn build_decode_plan(p: DecodeDims, k: DecodeKnobs, position: usize) -> (r: Result<
    Vec<DecodeStep>,
    DecodeError,
>)
    requires
        decode_sizes(p, k),
    ensures
        match r {
            Ok(steps) => position <= U32_MAX && decode_models(steps@) == decode_steps(p, k),
            Err(e) => position > U32_MAX && e == (DecodeError::Position { position }),
        },
{
    if position > U32_MAX {
        return Err(DecodeError::Position { position });
    }
    let mut steps: Vec<DecodeStep> = Vec::new();
    add_step(&mut steps, new_embed_step(p, k));
    assert(decode_models(steps@) =~= body_steps(p, k, 0));
    let mut l: usize = 0;
    while l < p.layers
        invariant
            l <= p.layers,
            decode_sizes(p, k),
            decode_models(steps@) == body_steps(p, k, l as int),
        decreases p.layers - l,
    {
        add_layer(&mut steps, p, k, l);
        l = l + 1;
    }
    let ghost body = decode_models(steps@);
    add_step(&mut steps, new_final_norm_step(p, k));
    if k.fused_lm_head {
        add_step(&mut steps, new_fused_lm_head_step(p, k));
    } else {
        add_step(&mut steps, new_lm_head_step(p, k));
        add_step(&mut steps, new_argmax_step(p, k));
    }
    proof {
        lemma_decode_sizes(p, k);
    }
    let blocks: usize = block_count(p.vocab, k.argmax_block);
    let b: usize = argmax_reduce_block_size(blocks);
    add_step(&mut steps, new_reduce_step(p, k, b));
    assert(decode_models(steps@) =~= body + tail_steps(p, k));
    Ok(steps)
}

/// The shape of a buffer of its own; weights and the rotary table come from the model.
pub open spec fn buf_shape(p: DecodeDims, k: DecodeKnobs, buf: Buf) -> Option<Shape> {
    match buf {
        Buf::TokenIds => Some(Shape::D1(1)),
        Buf::Position => Some(Shape::D1(1)),
        Buf::KvLength => Some(Shape::D1(1)),
        Buf::Hidden => Some(Shape::D2(1, p.hidden)),
        Buf::Normed => Some(Shape::D2(1, p.hidden)),
        Buf::Qkv => Some(Shape::D2(1, qkv_width(p))),
        Buf::QkNormFlat => Some(Shape::D2(all_heads(p), p.head_dim)),
        Buf::QkRope => Some(Shape::D3(1, all_heads(p), p.head_dim)),
        Buf::AttnOut => if k.attention is Split {
            Some(Shape::D3(p.kv_heads, share(p), p.head_dim))
        } else {
            Some(Shape::D3(1, p.heads, p.head_dim))
        },
        Buf::AttnProj => Some(Shape::D2(1, p.hidden)),
        Buf::FfNormed => Some(Shape::D2(1, p.hidden)),
        Buf::HiddenAfterAttn => Some(Shape::D2(1, p.hidden)),
        Buf::GateUp => Some(Shape::D2(1, gate_up_width(p))),
        Buf::Ff => Some(Shape::D2(1, p.inter)),
        Buf::FfDown => Some(Shape::D2(1, p.hidden)),
        Buf::Logits => Some(Shape::D1(p.vocab)),
        Buf::LseScratch => Some(Shape::D1(p.heads)),
        Buf::ArgmaxBlockMax => Some(Shape::D1(argmax_blocks_of(p, k))),
        Buf::ArgmaxBlockIdx => Some(Shape::D1(argmax_blocks_of(p, k))),
        Buf::FmhaAttPartial => Some(Shape::D3(p.kv_heads, split_rows(p, k), p.head_dim)),
        Buf::FmhaLsePartial => Some(Shape::D2(p.kv_heads, split_rows(p, k))),
        Buf::QuantGemvTmp => Some(Shape::D1(p.tmp_rows)),
        Buf::KCache(_) => Some(Shape::D3(p.kv_heads, p.max_seq_len, p.head_dim)),
        Buf::VCache(_) => Some(Shape::D3(p.kv_heads, p.max_seq_len, p.head_dim)),
        Buf::InvFreq => None,
        Buf::Weight(_) => None,
    }
}

/// The shape of a buffer of its own.
pub fn buffer_shape(p: DecodeDims, k: DecodeKnobs, buf: Buf) -> (r: Option<Shape>)
    requires
        decode_sizes(p, k),
    ensures
        r == buf_shape(p, k, buf),
{
    proof {
        lemma_decode_sizes(p, k);
    }
    let group: usize = p.heads / p.kv_heads;
    match buf {
        Buf::TokenIds | Buf::Position | Buf::KvLength => Some(Shape::D1(1)),
        Buf::Hidden | Buf::Normed | Buf::AttnProj | Buf::FfNormed | Buf::HiddenAfterAttn
        | Buf::FfDown => Some(Shape::D2(1, p.hidden)),
        Buf::Qkv => Some(
            Shape::D2(1, p.heads * p.head_dim + 2 * (p.kv_heads * p.head_dim)),
        ),
        Buf::QkNormFlat => Some(Shape::D2(p.heads + p.kv_heads, p.head_dim)),
        Buf::QkRope => Some(Shape::D3(1, p.heads + p.kv_heads, p.head_dim)),
        Buf::AttnOut => match k.attention {
            DecodeAttention::Split => Some(Shape::D3(p.kv_heads, group, p.head_dim)),
            _ => Some(Shape::D3(1, p.heads, p.head_dim)),
        },
        Buf::GateUp => Some(Shape::D2(1, 2 * p.inter)),
        Buf::Ff => Some(Shape::D2(1, p.inter)),
        Buf::Logits => Some(Shape::D1(p.vocab)),
        Buf::LseScratch => Some(Shape::D1(p.heads)),
        Buf::ArgmaxBlockMax | Buf::ArgmaxBlockIdx => Some(
            Shape::D1(block_count(p.vocab, k.argmax_block)),
        ),
        Buf::FmhaAttPartial => Some(Shape::D3(p.kv_heads, k.kv_splits * group, p.head_dim)),
        Buf::FmhaLsePartial => Some(Shape::D2(p.kv_heads, k.kv_splits * group)),
        Buf::QuantGemvTmp => Some(Shape::D1(p.tmp_rows)),
        Buf::KCache(_) | Buf::VCache(_) => Some(
            Shape::D3(p.kv_heads, p.max_seq_len, p.head_dim),
        ),
        Buf::InvFreq | Buf::Weight(_) => None,
    }
}

/// Whether a replay leaves logits behind: the kernel that is output head and search in one
/// keeps them to itself.
pub open spec fn leaves_logits(k: DecodeKnobs) -> bool {
    !k.fused_lm_head
}

/// Whether a replay leaves logits behind.
pub fn logits_valid(k: DecodeKnobs) -> (r: bool)
    ensures
        r == leaves_logits(k),
{
    !k.fused_lm_head
}

} // verus!
