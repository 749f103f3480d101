//! Rotary embedding, cache updates and attention: which kernels compute them.
use crate::kernel::{
    compile_options_with_occupancy, new_call, occupancy_hint, plain_call, CallModel, Grid, Hint,
    Kernel, KernelCall, LaunchError,
};
use crate::knobs::{
    bool_or, env_bool_or, env_usize_hint_or, env_usize_or, lpt_swizzle_spec, prefill_lpt_swizzle,
    text_of, usize_hint_or, usize_or, LPT_L2_BYTES,
};
use crate::pointwise::{block_count, blocks_for, law_blocks_cover, VEC_BLOCK};
use vstd::prelude::*;

verus! {

/// Head size of the rotary kernels.
pub const ROPE_BLOCK: usize = 128;

/// Tokens that a cache update works on at once.
pub const KV_CACHE_BM_S_DEFAULT: usize = 16;

/// Elements of a head that a cache update of one token works on at once.
pub const KV_CACHE_DYN_CHUNK_D_DEFAULT: usize = 32;

/// Queries that the attention of one token works on at once.
pub const ATTN_BM_DECODE: usize = 1;

/// Keys that the attention of one token works on at once.
pub const ATTN_BN_DECODE: usize = 32;

/// Queries that the attention of a prefill works on at once.
pub const ATTN_BM_PREFILL: usize = 16;

/// Keys that the attention of a prefill works on at once.
pub const ATTN_BN_PREFILL: usize = 32;

/// Loads that the attention of a prefill keeps in flight.
pub const FMHA_PREFILL_LATENCY_DEFAULT: usize = 2;

/// Blocks of the attention of a prefill that share a multiprocessor.
pub const FMHA_PREFILL_OCCUPANCY_DEFAULT: usize = 2;

/// Tokens from which on a prefill groups its heads by itself.
pub const LPT_MIN_TOKENS: usize = 2048;

/// Where the tokens of a step begin: known on the host, or in a tensor of this shape.
#[derive(Clone, Copy, Debug)]
pub enum PositionInput<'a> {
    Host(usize),
    Device(&'a [usize]),
}

/// Sizes of the attention: query heads, key heads, head size, and tokens of the cache.
#[derive(Clone, Copy, Debug, PartialEq, Eq, Structural)]
pub struct AttnDims {
    pub heads: usize,
    pub kv_heads: usize,
    pub head_dim: usize,
    pub max_seq_len: usize,
}

/// Whether a shape is `a` by `b` by `c`.
pub fn is_cube_shape(shape: &[usize], a: usize, b: usize, c: usize) -> (r: bool)
    ensures
        r == (shape@ == seq![a, b, c]),
{
    if shape.len() == 3 && shape[0] == a && shape[1] == b && shape[2] == c {
        assert(shape@ =~= seq![a, b, c]);
        true
    } else {
        false
    }
}

/// Whether a shape is that of one number.
pub fn is_scalar_shape(shape: &[usize]) -> (r: bool)
    ensures
        r == (shape@ == seq![1usize]),
{
    if shape.len() == 1 && shape[0] == 1 {
        assert(shape@ =~= seq![1usize]);
        true
    } else {
        false
    }
}

/// The kernel that embeds positions into a tensor of shape `x`.
pub open spec fn rope_spec(
    x: Seq<usize>,
    position: PositionInput,
    out: Seq<usize>,
    head_dim: usize,
) -> Result<CallModel, LaunchError> {
    if x.len() != 3 || x[2] != head_dim || x[2] != ROPE_BLOCK {
        Err(LaunchError::InputShape)
    } else if (position matches PositionInput::Device(s) && s@ != seq![1usize]) {
        Err(LaunchError::PositionShape)
    } else if out != seq![x[0], x[1], head_dim] {
        Err(LaunchError::OutputShape)
    } else {
        let tile = seq![1, 1, head_dim / 2];
        let generics = seq![head_dim, head_dim / 2];
        match position {
            PositionInput::Host(start) => Ok(
                CallModel { ints: seq![start], ..plain_call(Kernel::RopeSeq, tile, generics) },
            ),
            PositionInput::Device(_) => Ok(plain_call(Kernel::RopeSeqDynpos, tile, generics)),
        }
    }
}

/// The kernel that embeds positions into a tensor of shape `x`.
pub fn rope_seq_into(x: &[usize], position: PositionInput, out: &[usize], head_dim: usize) -> (r:
    Result<KernelCall, LaunchError>)
    ensures
        match r {
            Ok(c) => rope_spec(x@, position, out@, head_dim) == Ok::<CallModel, LaunchError>(c@),
            Err(e) => rope_spec(x@, position, out@, head_dim) == Err::<CallModel, LaunchError>(e),
        },
{
    if x.len() != 3 || x[2] != head_dim || x[2] != ROPE_BLOCK {
        return Err(LaunchError::InputShape);
    }
    match position {
        PositionInput::Device(s) => {
            if !is_scalar_shape(s) {
                return Err(LaunchError::PositionShape);
            }
        },
        _ => {},
    }
    if !is_cube_shape(out, x[0], x[1], head_dim) {
        return Err(LaunchError::OutputShape);
    }
    let tile: Vec<usize> = vec![1, 1, head_dim / 2];
    let generics: Vec<usize> = vec![head_dim, head_dim / 2];
    assert(tile@ =~= seq![1, 1, head_dim / 2]);
    assert(generics@ =~= seq![head_dim, head_dim / 2]);
    match position {
        PositionInput::Host(start) => {
            let mut call: KernelCall = new_call(Kernel::RopeSeq, tile, generics);
            call.ints = vec![start];
            assert(call.ints@ =~= seq![start]);
            Ok(call)
        },
        PositionInput::Device(_) => Ok(new_call(Kernel::RopeSeqDynpos, tile, generics)),
    }
}

/// The kernel that writes keys and values into a cache. `cached` says whether the layer
/// has its two caches.
pub open spec fn kv_update_spec(
    new_k: Seq<usize>,
    new_v: Seq<usize>,
    position: PositionInput,
    d: AttnDims,
    cached: bool,
    bm_s: usize,
    chunk_d: usize,
) -> Result<CallModel, LaunchError> {
    let seqlen = new_k[0];
    let want = seq![seqlen, d.kv_heads, d.head_dim];
    if new_k.len() != 3 {
        Err(LaunchError::Rank { rank: new_k.len() as usize })
    } else if new_k != want || new_v != want {
        Err(LaunchError::InputShape)
    } else {
        match position {
            PositionInput::Host(start) => if start + seqlen > d.max_seq_len {
                Err(
                    LaunchError::Range {
                        start,
                        end: (start + seqlen) as usize,
                        limit: d.max_seq_len,
                    },
                )
            } else if !cached {
                Err(LaunchError::MissingCache)
            } else {
                let tile = seq![1, bm_s, VEC_BLOCK];
                Ok(
                    CallModel {
                        second_tile: tile,
                        ints: seq![start, seqlen],
                        ..plain_call(
                            Kernel::KvCacheUpdateSeq,
                            tile,
                            seq![d.head_dim, VEC_BLOCK, bm_s],
                        )
                    },
                )
            },
            PositionInput::Device(s) => if seqlen != 1 {
                Err(LaunchError::ManyTokens { tokens: seqlen })
            } else if s@ != seq![1usize] {
                Err(LaunchError::PositionShape)
            } else if !cached {
                Err(LaunchError::MissingCache)
            } else {
                let tile = seq![1, d.max_seq_len, chunk_d];
                Ok(
                    CallModel {
                        second_tile: tile,
                        ints: seq![seqlen],
                        ..plain_call(
                            Kernel::KvCacheUpdateSeqDynpos,
                            tile,
                            seq![d.head_dim, chunk_d, d.max_seq_len],
                        )
                    },
                )
            },
        }
    }
}

/// The kernel that writes keys and values into a cache: at known positions, which have to
/// be in the cache, or one token at the position in a tensor.
pub fn kv_cache_update(
    new_k: &[usize],
    new_v: &[usize],
    position: PositionInput,
    d: AttnDims,
    cached: bool,
    bm_s: usize,
    chunk_d: usize,
) -> (r: Result<KernelCall, LaunchError>)
    requires
        position matches PositionInput::Host(start) ==> (new_k@.len() == 3 ==> start + new_k@[0]
            <= usize::MAX),
    ensures
        match r {
            Ok(c) => kv_update_spec(new_k@, new_v@, position, d, cached, bm_s, chunk_d) == Ok::<
                CallModel,
                LaunchError,
            >(c@),
            Err(e) => kv_update_spec(new_k@, new_v@, position, d, cached, bm_s, chunk_d) == Err::<
                CallModel,
                LaunchError,
            >(e),
        },
{
    if new_k.len() != 3 {
        return Err(LaunchError::Rank { rank: new_k.len() });
    }
    let seqlen: usize = new_k[0];
    if !is_cube_shape(new_k, seqlen, d.kv_heads, d.head_dim) || !is_cube_shape(
        new_v,
        seqlen,
        d.kv_heads,
        d.head_dim,
    ) {
        return Err(LaunchError::InputShape);
    }
    match position {
        PositionInput::Host(start) => {
            if start + seqlen > d.max_seq_len {
                return Err(
                    LaunchError::Range { start, end: start + seqlen, limit: d.max_seq_len },
                );
            }
            if !cached {
                return Err(LaunchError::MissingCache);
            }
            let mut call: KernelCall = new_call(
                Kernel::KvCacheUpdateSeq,
                vec![1, bm_s, VEC_BLOCK],
                vec![d.head_dim, VEC_BLOCK, bm_s],
            );
            call.second_tile = vec![1, bm_s, VEC_BLOCK];
            call.ints = vec![start, seqlen];
            assert(call.tile@ =~= seq![1, bm_s, VEC_BLOCK]);
            assert(call.second_tile@ =~= seq![1, bm_s, VEC_BLOCK]);
            assert(call.ints@ =~= seq![start, seqlen]);
            assert(call.generics@ =~= seq![d.head_dim, VEC_BLOCK, bm_s]);
            Ok(call)
        },
        PositionInput::Device(s) => {
            if seqlen != 1 {
                return Err(LaunchError::ManyTokens { tokens: seqlen });
            }
            if !is_scalar_shape(s) {
                return Err(LaunchError::PositionShape);
            }
            if !cached {
                return Err(LaunchError::MissingCache);
            }
            let mut call: KernelCall = new_call(
                Kernel::KvCacheUpdateSeqDynpos,
                vec![1, d.max_seq_len, chunk_d],
                vec![d.head_dim, chunk_d, d.max_seq_len],
            );
            call.second_tile = vec![1, d.max_seq_len, chunk_d];
            call.ints = vec![seqlen];
            assert(call.tile@ =~= seq![1, d.max_seq_len, chunk_d]);
            assert(call.second_tile@ =~= seq![1, d.max_seq_len, chunk_d]);
            assert(call.ints@ =~= seq![seqlen]);
            assert(call.generics@ =~= seq![d.head_dim, chunk_d, d.max_seq_len]);
            Ok(call)
        },
    }
}

/// The kernel that norms and rotates queries and keys of a prefill and writes the cache.
/// `k_cache` and `v_cache` are the shapes of the caches, where there are any.
pub open spec fn fused_prefill_spec(
    q: Seq<usize>,
    k: Seq<usize>,
    v: Seq<usize>,
    out: Seq<usize>,
    position: PositionInput,
    d: AttnDims,
    k_cache: Option<Seq<usize>>,
    v_cache: Option<Seq<usize>>,
) -> Result<CallModel, LaunchError> {
    match position {
        PositionInput::Device(_) => Err(LaunchError::HostPosition),
        PositionInput::Host(start) => {
            let seqlen = if q.len() == 0 {
                0usize
            } else {
                q[0]
            };
            let cache = seq![d.kv_heads, d.max_seq_len, d.head_dim];
            if q != seq![seqlen, d.heads, d.head_dim] || k != seq![seqlen, d.kv_heads, d.head_dim]
                || v != seq![seqlen, d.kv_heads, d.head_dim] {
                Err(LaunchError::InputShape)
            } else if out != seq![seqlen, d.heads, d.head_dim] {
                Err(LaunchError::OutputShape)
            } else if d.head_dim % 2 != 0 {
                Err(LaunchError::OddHeadDim { head_dim: d.head_dim })
            } else if start + seqlen > d.max_seq_len {
                Err(
                    LaunchError::Range {
                        start,
                        end: (start + seqlen) as usize,
                        limit: d.max_seq_len,
                    },
                )
            } else if k_cache is None || v_cache is None {
                Err(LaunchError::MissingCache)
            } else if k_cache != Some(cache) || v_cache != Some(cache) {
                Err(LaunchError::CacheShape)
            } else {
                Ok(
                    CallModel {
                        ints: seq![start, seqlen, d.heads, d.kv_heads],
                        grid: Some(Grid { x: seqlen, y: (d.heads + d.kv_heads) as usize, z: 1 }),
                        ..plain_call(
                            Kernel::QkNormRopeKvPrefillRaw,
                            Seq::empty(),
                            seq![d.head_dim, d.head_dim / 2, d.max_seq_len],
                        )
                    },
                )
            }
        },
    }
}

/// The shape that stands behind an option.
pub open spec fn shape_of(s: Option<&[usize]>) -> Option<Seq<usize>> {
    match s {
        Some(x) => Some(x@),
        None => None,
    }
}

/// The kernel that norms and rotates queries and keys of a prefill and writes the cache.
pub fn qk_norm_rope_kv_prefill(
    q: &[usize],
    k: &[usize],
    v: &[usize],
    out: &[usize],
    position: PositionInput,
    d: AttnDims,
    k_cache: Option<&[usize]>,
    v_cache: Option<&[usize]>,
) -> (r: Result<KernelCall, LaunchError>)
    requires
        d.heads + d.kv_heads <= usize::MAX,
        position matches PositionInput::Host(start) ==> (q@.len() > 0 ==> start + q@[0]
            <= usize::MAX),
    ensures
        ({
            let want = fused_prefill_spec(
                q@,
                k@,
                v@,
                out@,
                position,
                d,
                shape_of(k_cache),
                shape_of(v_cache),
            );
            match r {
                Ok(c) => want == Ok::<CallModel, LaunchError>(c@),
                Err(e) => want == Err::<CallModel, LaunchError>(e),
            }
        }),
{
    let start: usize = match position {
        PositionInput::Host(start) => start,
        PositionInput::Device(_) => {
            return Err(LaunchError::HostPosition);
        },
    };
    let seqlen: usize = if q.len() == 0 {
        0
    } else {
        q[0]
    };
    if !is_cube_shape(q, seqlen, d.heads, d.head_dim) || !is_cube_shape(
        k,
        seqlen,
        d.kv_heads,
        d.head_dim,
    ) || !is_cube_shape(v, seqlen, d.kv_heads, d.head_dim) {
        return Err(LaunchError::InputShape);
    }
    if !is_cube_shape(out, seqlen, d.heads, d.head_dim) {
        return Err(LaunchError::OutputShape);
    }
    if d.head_dim % 2 != 0 {
        return Err(LaunchError::OddHeadDim { head_dim: d.head_dim });
    }
    if start + seqlen > d.max_seq_len {
        return Err(LaunchError::Range { start, end: start + seqlen, limit: d.max_seq_len });
    }
    match (k_cache, v_cache) {
        (Some(kc), Some(vc)) => {
            if !is_cube_shape(kc, d.kv_heads, d.max_seq_len, d.head_dim) || !is_cube_shape(
                vc,
                d.kv_heads,
                d.max_seq_len,
                d.head_dim,
            ) {
                return Err(LaunchError::CacheShape);
            }
        },
        _ => {
            return Err(LaunchError::MissingCache);
        },
    }
    let mut call: KernelCall = new_call(
        Kernel::QkNormRopeKvPrefillRaw,
        Vec::new(),
        vec![d.head_dim, d.head_dim / 2, d.max_seq_len],
    );
    call.ints = vec![start, seqlen, d.heads, d.kv_heads];
    call.grid = Some(Grid { x: seqlen, y: d.heads + d.kv_heads, z: 1 });
    assert(call.tile@ =~= Seq::empty());
    assert(call.ints@ =~= seq![start, seqlen, d.heads, d.kv_heads]);
    assert(call.generics@ =~= seq![d.head_dim, d.head_dim / 2, d.max_seq_len]);
    Ok(call)
}

/// The variables that tune attention, as they are set.
#[derive(Clone, Copy, Debug)]
pub struct AttnEnv<'a> {
    pub bn_decode: Option<&'a str>,
    pub bn_prefill: Option<&'a str>,
    pub bm_prefill: Option<&'a str>,
    pub gqa_lpt: Option<&'a str>,
    pub gqa: Option<&'a str>,
    pub prefill: Option<&'a str>,
    pub gqa_group: Option<&'a str>,
    pub latency: Option<&'a str>,
    pub occupancy: Option<&'a str>,
    pub schedule: Option<&'a str>,
    pub mask_split: Option<&'a str>,
    pub l2_bytes: Option<&'a str>,
    pub swizzle: Option<&'a str>,
}

/// How attention is tuned.
#[derive(Clone, Copy, Debug)]
pub struct AttnKnobs {
    pub bn_decode: usize,
    pub bn_prefill: usize,
    pub bm_prefill: usize,
    /// Whether a prefill groups heads for the cache, where it is said.
    pub gqa_lpt: Option<bool>,
    /// Whether a prefill packs query heads.
    pub gqa: bool,
    /// Whether a prefill uses its own kernel.
    pub prefill: bool,
    /// Query heads that are packed; 0 for all that share keys.
    pub gqa_group: usize,
    pub latency: usize,
    pub occupancy: Option<usize>,
    pub schedule: usize,
    pub mask_split: bool,
    pub l2_bytes: usize,
    /// Head groups that are worked on together; 0 for as many as fit the cache.
    pub swizzle: usize,
}

/// What the variables say, and the defaults where they say nothing.
pub open spec fn knobs_of(env: AttnEnv) -> AttnKnobs {
    AttnKnobs {
        bn_decode: usize_or(text_of(env.bn_decode), ATTN_BN_DECODE),
        bn_prefill: usize_or(text_of(env.bn_prefill), ATTN_BN_PREFILL),
        bm_prefill: usize_or(text_of(env.bm_prefill), ATTN_BM_PREFILL),
        gqa_lpt: match env.gqa_lpt {
            Some(s) => Some(bool_or(Some(s@), false)),
            None => None,
        },
        gqa: bool_or(text_of(env.gqa), false),
        prefill: bool_or(text_of(env.prefill), true),
        gqa_group: usize_or(text_of(env.gqa_group), 0),
        latency: usize_or(text_of(env.latency), FMHA_PREFILL_LATENCY_DEFAULT),
        occupancy: usize_hint_or(text_of(env.occupancy), FMHA_PREFILL_OCCUPANCY_DEFAULT),
        schedule: usize_or(text_of(env.schedule), 1),
        mask_split: bool_or(text_of(env.mask_split), false),
        l2_bytes: usize_or(text_of(env.l2_bytes), LPT_L2_BYTES),
        swizzle: usize_or(text_of(env.swizzle), 0),
    }
}

/// Reads the variables that tune attention.
pub fn read_attn_knobs(env: AttnEnv) -> (r: AttnKnobs)
    ensures
        r == knobs_of(env),
{
    AttnKnobs {
        bn_decode: env_usize_or(env.bn_decode, ATTN_BN_DECODE),
        bn_prefill: env_usize_or(env.bn_prefill, ATTN_BN_PREFILL),
        bm_prefill: env_usize_or(env.bm_prefill, ATTN_BM_PREFILL),
        gqa_lpt: match env.gqa_lpt {
            Some(s) => Some(env_bool_or(Some(s), false)),
            None => None,
        },
        gqa: env_bool_or(env.gqa, false),
        prefill: env_bool_or(env.prefill, true),
        gqa_group: env_usize_or(env.gqa_group, 0),
        latency: env_usize_or(env.latency, FMHA_PREFILL_LATENCY_DEFAULT),
        occupancy: env_usize_hint_or(env.occupancy, FMHA_PREFILL_OCCUPANCY_DEFAULT),
        schedule: env_usize_or(env.schedule, 1),
        mask_split: env_bool_or(env.mask_split, false),
        l2_bytes: env_usize_or(env.l2_bytes, LPT_L2_BYTES),
        swizzle: env_usize_or(env.swizzle, 0),
    }
}

/// Query heads that share keys.
pub open spec fn group_size(d: AttnDims) -> usize {
    d.heads / d.kv_heads
}

/// Query heads that are packed, where that many divide those that share keys.
pub open spec fn packed_heads(d: AttnDims, knobs: AttnKnobs) -> Result<usize, LaunchError> {
    let group = if knobs.gqa_group == 0 {
        group_size(d)
    } else {
        knobs.gqa_group
    };
    if group >= 1 && group_size(d) % group == 0 {
        Ok(group)
    } else {
        Err(LaunchError::Group { group })
    }
}

/// 1 for true.
pub open spec fn flag(b: bool) -> usize {
    if b {
        1
    } else {
        0
    }
}

/// Head groups that a grouping prefill works on together.
pub open spec fn swizzle_of(q_len: usize, groups: usize, d: AttnDims, knobs: AttnKnobs) -> int {
    let asked = if knobs.swizzle == 0 {
        lpt_swizzle_spec(q_len, d.head_dim, groups, knobs.l2_bytes)
    } else {
        knobs.swizzle as int
    };
    let low = if asked < groups {
        asked
    } else {
        groups as int
    };
    if low < 1 {
        1
    } else {
        low
    }
}

/// The prefill kernel that groups heads for the cache, for `bm` queries at once.
pub open spec fn lpt_call(
    q_len: usize,
    start: usize,
    group: usize,
    bm: usize,
    bn: usize,
    d: AttnDims,
    knobs: AttnKnobs,
) -> CallModel {
    let kv_len = (start + q_len) as usize;
    let blocks = blocks_for(q_len as int, bm as int) as usize;
    let groups = d.heads / group;
    let swizzle = swizzle_of(q_len, groups, d, knobs) as usize;
    let rest = groups % swizzle;
    CallModel {
        kernel: Kernel::FmhaPrefillGqaLpt,
        tile: Seq::empty(),
        second_tile: Seq::empty(),
        ints: seq![
            group_size(d),
            q_len,
            kv_len,
            start,
            blocks,
            groups,
            swizzle,
            groups / swizzle,
            if rest < 1 {
                1usize
            } else {
                rest
            },
        ],
        generics: seq![
            bm,
            bn,
            d.head_dim,
            group,
            (bm * group) as usize,
            1usize,
            flag(kv_len % bn == 0),
            knobs.latency,
            knobs.schedule,
            flag(knobs.mask_split),
        ],
        grid: Some(Grid { x: (blocks * groups) as usize, y: 1, z: 1 }),
        hint: occupancy_hint(knobs.occupancy),
    }
}

/// A prefill kernel with tiles of `bm` queries and `group` heads, and its extra
/// compile-time parameters.
pub open spec fn prefill_call(
    kernel: Kernel,
    q_len: usize,
    start: usize,
    group: usize,
    bm: usize,
    generics: Seq<usize>,
    hint: Hint,
    d: AttnDims,
) -> CallModel {
    CallModel {
        ints: seq![group_size(d), (start + q_len) as usize, start],
        hint,
        ..plain_call(kernel, seq![bm, group, d.head_dim], generics)
    }
}

/// The attention kernel for `q_len` tokens at a position that the host knows.
pub open spec fn host_attention(
    q_len: usize,
    start: usize,
    d: AttnDims,
    knobs: AttnKnobs,
    sm100: bool,
) -> Result<CallModel, LaunchError> {
    let bn = if q_len == 1 {
        knobs.bn_decode
    } else {
        knobs.bn_prefill
    };
    let bm = if q_len == 1 {
        ATTN_BM_DECODE
    } else {
        knobs.bm_prefill
    };
    let by_default = q_len >= LPT_MIN_TOKENS && group_size(d) > 1 && sm100;
    let lpt = match knobs.gqa_lpt {
        Some(b) => b,
        None => by_default,
    };
    let even = flag(((start + q_len) as usize) % bn == 0);
    let hint = occupancy_hint(knobs.occupancy);
    if lpt {
        match packed_heads(d, knobs) {
            Err(e) => Err(e),
            Ok(group) => if d.heads % group != 0 {
                Err(LaunchError::Group { group })
            } else if knobs.schedule > 3 {
                Err(LaunchError::Schedule { schedule: knobs.schedule })
            } else {
                Ok(lpt_call(q_len, start, group, bm, bn, d, knobs))
            },
        }
    } else if knobs.gqa {
        match packed_heads(d, knobs) {
            Err(e) => Err(e),
            Ok(group) => Ok(
                prefill_call(
                    Kernel::FmhaPrefillGqa,
                    q_len,
                    start,
                    group,
                    bm,
                    seq![
                        bm,
                        bn,
                        d.head_dim,
                        group,
                        (bm * group) as usize,
                        1usize,
                        even,
                        knobs.latency,
                    ],
                    hint,
                    d,
                ),
            ),
        }
    } else if knobs.prefill {
        Ok(
            prefill_call(
                Kernel::FmhaPrefillCausal,
                q_len,
                start,
                1,
                bm,
                seq![bm, bn, d.head_dim, 1usize, even, knobs.latency],
                hint,
                d,
            ),
        )
    } else {
        Ok(
            prefill_call(
                Kernel::FlashAttnCausalSeq,
                q_len,
                start,
                1,
                bm,
                seq![bm, bn, d.head_dim],
                Hint::Default,
                d,
            ),
        )
    }
}

/// The attention kernel for queries of shape `q`, into a tensor of shape `out`. `cached`
/// says whether the layer has its two caches, `sm100` whether the device is of that kind.
pub open spec fn attend_spec(
    q: Seq<usize>,
    position: PositionInput,
    out: Seq<usize>,
    d: AttnDims,
    cached: bool,
    knobs: AttnKnobs,
    sm100: bool,
) -> Result<CallModel, LaunchError> {
    let q_len = q[0];
    let want = seq![q_len, d.heads, d.head_dim];
    if q.len() != 3 {
        Err(LaunchError::Rank { rank: q.len() as usize })
    } else if q != want {
        Err(LaunchError::InputShape)
    } else if position is Device && q_len != 1 {
        Err(LaunchError::ManyTokens { tokens: q_len })
    } else if (position matches PositionInput::Device(s) && s@ != seq![1usize]) {
        Err(LaunchError::PositionShape)
    } else if !cached {
        Err(LaunchError::MissingCache)
    } else if out != want {
        Err(LaunchError::OutputShape)
    } else {
        match position {
            PositionInput::Host(start) => host_attention(q_len, start, d, knobs, sm100),
            PositionInput::Device(_) => Ok(
                CallModel {
                    ints: seq![group_size(d)],
                    ..plain_call(
                        Kernel::FmhaCausal,
                        seq![ATTN_BM_DECODE, 1, d.head_dim],
                        seq![
                            ATTN_BM_DECODE,
                            knobs.bn_decode,
                            d.head_dim,
                            1usize,
                            flag(q_len % knobs.bn_decode == 0),
                        ],
                    )
                },
            ),
        }
    }
}

/// The knobs are positive where they have to be, and the sizes can be multiplied.
pub open spec fn attn_sizes(q_len: usize, start: int, d: AttnDims, knobs: AttnKnobs) -> bool {
    &&& 1 <= d.kv_heads <= d.heads
    &&& knobs.bn_decode >= 1
    &&& knobs.bn_prefill >= 1
    &&& knobs.bm_prefill >= 1
    &&& start + q_len <= usize::MAX
    &&& q_len + knobs.bm_prefill <= usize::MAX
    &&& knobs.bm_prefill * d.heads <= usize::MAX
    &&& q_len * d.heads <= usize::MAX
}

/// Whether the sizes of attention can be counted.
pub fn attention_fits(q_len: usize, start: usize, d: AttnDims, knobs: AttnKnobs) -> (r: bool)
    ensures
        r == attn_sizes(q_len, start as int, d, knobs),
{
    1 <= d.kv_heads && d.kv_heads <= d.heads && knobs.bn_decode >= 1 && knobs.bn_prefill >= 1
        && knobs.bm_prefill >= 1 && start.checked_add(q_len).is_some() && q_len.checked_add(
        knobs.bm_prefill,
    ).is_some() && knobs.bm_prefill.checked_mul(d.heads).is_some() && q_len.checked_mul(
        d.heads,
    ).is_some()
}

pub proof fn lemma_packed(d: AttnDims, knobs: AttnKnobs, bm: usize)
    requires
        1 <= d.kv_heads <= d.heads,
        bm * d.heads <= usize::MAX,
    ensures
        packed_heads(d, knobs) matches Ok(group) ==> 1 <= group <= d.heads && bm * group
            <= usize::MAX,
{
    match packed_heads(d, knobs) {
        Ok(group) => {
            let share = group_size(d);
            assert(1 <= share <= d.heads) by (nonlinear_arith)
                requires
                    share == d.heads / d.kv_heads,
                    1 <= d.kv_heads <= d.heads,
            ;
            assert(group <= share) by (nonlinear_arith)
                requires
                    share % group == 0,
                    share >= 1,
                    group >= 1,
            ;
            assert(bm * group <= bm * d.heads) by (nonlinear_arith)
                requires
                    group <= d.heads,
                    bm >= 0,
            ;
        },
        Err(_) => {},
    }
}

fn pack_heads(d: AttnDims, knobs: AttnKnobs) -> (r: Result<usize, LaunchError>)
    requires
        d.kv_heads >= 1,
    ensures
        r == packed_heads(d, knobs),
{
    let share: usize = d.heads / d.kv_heads;
    let group: usize = if knobs.gqa_group == 0 {
        share
    } else {
        knobs.gqa_group
    };
    if group >= 1 && share % group == 0 {
        Ok(group)
    } else {
        Err(LaunchError::Group { group })
    }
}

fn as_flag(b: bool) -> (r: usize)
    ensures
        r == flag(b),
{
    if b {
        1
    } else {
        0
    }
}

fn new_lpt_call(
    q_len: usize,
    start: usize,
    group: usize,
    bm: usize,
    bn: usize,
    d: AttnDims,
    knobs: AttnKnobs,
) -> (r: KernelCall)
    requires
        d.kv_heads >= 1,
        1 <= group <= d.heads,
        bm >= 1,
        bn >= 1,
        bm * group <= usize::MAX,
        start + q_len <= usize::MAX,
        q_len + bm <= usize::MAX,
        q_len * d.heads <= usize::MAX,
    ensures
        r@ == lpt_call(q_len, start, group, bm, bn, d, knobs),
{
    let share: usize = d.heads / d.kv_heads;
    let kv_len: usize = start + q_len;
    let even: usize = as_flag(kv_len % bn == 0);
    let blocks: usize = block_count(q_len, bm);
    let groups: usize = d.heads / group;
    let asked: usize = if knobs.swizzle == 0 {
        prefill_lpt_swizzle(q_len, d.head_dim, groups, knobs.l2_bytes)
    } else {
        knobs.swizzle
    };
    let low: usize = if asked < groups {
        asked
    } else {
        groups
    };
    let swizzle: usize = if low < 1 {
        1
    } else {
        low
    };
    let rest: usize = groups % swizzle;
    let rest_or_one: usize = if rest < 1 {
        1
    } else {
        rest
    };
    proof {
        assert(groups <= d.heads) by (nonlinear_arith)
            requires
                groups == d.heads / group,
                group >= 1,
        ;
        assert(blocks <= q_len) by (nonlinear_arith)
            requires
                blocks == (q_len + bm - 1) / bm as int,
                bm >= 1,
                q_len >= 0,
        ;
        assert(0 <= blocks * groups <= q_len * d.heads) by (nonlinear_arith)
            requires
                0 <= blocks <= q_len,
                0 <= groups <= d.heads,
        ;
    }
    let generics: Vec<usize> = vec![
        bm,
        bn,
        d.head_dim,
        group,
        bm * group,
        1,
        even,
        knobs.latency,
        knobs.schedule,
        as_flag(knobs.mask_split),
    ];
    let mut call: KernelCall = new_call(Kernel::FmhaPrefillGqaLpt, Vec::new(), generics);
    call.ints = vec![
        share,
        q_len,
        kv_len,
        start,
        blocks,
        groups,
        swizzle,
        groups / swizzle,
        rest_or_one,
    ];
    call.grid = Some(Grid { x: blocks * groups, y: 1, z: 1 });
    call.hint = compile_options_with_occupancy(knobs.occupancy);
    assert(call@ =~= lpt_call(q_len, start, group, bm, bn, d, knobs));
    call
}

fn new_prefill_call(
    kernel: Kernel,
    q_len: usize,
    start: usize,
    group: usize,
    bm: usize,
    generics: Vec<usize>,
    hint: Hint,
    d: AttnDims,
) -> (r: KernelCall)
    requires
        d.kv_heads >= 1,
        start + q_len <= usize::MAX,
    ensures
        r@ == prefill_call(kernel, q_len, start, group, bm, generics@, hint, d),
{
    let ghost g = generics@;
    let mut call: KernelCall = new_call(kernel, vec![bm, group, d.head_dim], generics);
    call.ints = vec![d.heads / d.kv_heads, start + q_len, start];
    call.hint = hint;
    assert(call@ =~= prefill_call(kernel, q_len, start, group, bm, g, hint, d));
    call
}

fn attend_on_host(
    q_len: usize,
    start: usize,
    d: AttnDims,
    knobs: AttnKnobs,
    sm100: bool,
) -> (r: Result<KernelCall, LaunchError>)
    requires
        attn_sizes(q_len, start as int, d, knobs),
    ensures
        match r {
            Ok(c) => host_attention(q_len, start, d, knobs, sm100) == Ok::<CallModel, LaunchError>(
                c@,
            ),
            Err(e) => host_attention(q_len, start, d, knobs, sm100) == Err::<
                CallModel,
                LaunchError,
            >(e),
        },
{
    let bn: usize = if q_len == 1 {
        knobs.bn_decode
    } else {
        knobs.bn_prefill
    };
    let bm: usize = if q_len == 1 {
        ATTN_BM_DECODE
    } else {
        knobs.bm_prefill
    };
    let share: usize = d.heads / d.kv_heads;
    let lpt: bool = match knobs.gqa_lpt {
        Some(b) => b,
        None => q_len >= LPT_MIN_TOKENS && share > 1 && sm100,
    };
    let even: usize = as_flag((start + q_len) % bn == 0);
    let hint: Hint = compile_options_with_occupancy(knobs.occupancy);
    proof {
        assert(1 * d.heads <= knobs.bm_prefill * d.heads) by (nonlinear_arith)
            requires
                knobs.bm_prefill >= 1,
                d.heads >= 0,
        ;
        lemma_packed(d, knobs, bm);
    }
    if lpt {
        let group: usize = pack_heads(d, knobs)?;
        if d.heads % group != 0 {
            return Err(LaunchError::Group { group });
        }
        if knobs.schedule > 3 {
            return Err(LaunchError::Schedule { schedule: knobs.schedule });
        }
        return Ok(new_lpt_call(q_len, start, group, bm, bn, d, knobs));
    }
    if knobs.gqa {
        let group: usize = pack_heads(d, knobs)?;
        let generics: Vec<usize> = vec![
            bm,
            bn,
            d.head_dim,
            group,
            bm * group,
            1,
            even,
            knobs.latency,
        ];
        assert(generics@ =~= seq![
            bm,
            bn,
            d.head_dim,
            group,
            (bm * group) as usize,
            1usize,
            even,
            knobs.latency,
        ]);
        return Ok(
            new_prefill_call(Kernel::FmhaPrefillGqa, q_len, start, group, bm, generics, hint, d),
        );
    }
    if knobs.prefill {
        let generics: Vec<usize> = vec![bm, bn, d.head_dim, 1, even, knobs.latency];
        assert(generics@ =~= seq![bm, bn, d.head_dim, 1usize, even, knobs.latency]);
        return Ok(
            new_prefill_call(Kernel::FmhaPrefillCausal, q_len, start, 1, bm, generics, hint, d),
        );
    }
    let generics: Vec<usize> = vec![bm, bn, d.head_dim];
    assert(generics@ =~= seq![bm, bn, d.head_dim]);
    Ok(
        new_prefill_call(
            Kernel::FlashAttnCausalSeq,
            q_len,
            start,
            1,
            bm,
            generics,
            Hint::Default,
            d,
        ),
    )
}

/// The attention kernel for queries of shape `q`, into a tensor of shape `out`.
pub fn attend_seq(
    q: &[usize],
    position: PositionInput,
    out: &[usize],
    d: AttnDims,
    cached: bool,
    knobs: AttnKnobs,
    sm100: bool,
) -> (r: Result<KernelCall, LaunchError>)
    requires
        q@.len() == 3 ==> attn_sizes(
            q@[0],
            match position {
                PositionInput::Host(start) => start as int,
                PositionInput::Device(_) => 0,
            },
            d,
            knobs,
        ),
    ensures
        match r {
            Ok(c) => attend_spec(q@, position, out@, d, cached, knobs, sm100) == Ok::<
                CallModel,
                LaunchError,
            >(c@),
            Err(e) => attend_spec(q@, position, out@, d, cached, knobs, sm100) == Err::<
                CallModel,
                LaunchError,
            >(e),
        },
{
    if q.len() != 3 {
        return Err(LaunchError::Rank { rank: q.len() });
    }
    let q_len: usize = q[0];
    if !is_cube_shape(q, q_len, d.heads, d.head_dim) {
        return Err(LaunchError::InputShape);
    }
    match position {
        PositionInput::Device(s) => {
            if q_len != 1 {
                return Err(LaunchError::ManyTokens { tokens: q_len });
            }
            if !is_scalar_shape(s) {
                return Err(LaunchError::PositionShape);
            }
        },
        _ => {},
    }
    if !cached {
        return Err(LaunchError::MissingCache);
    }
    if !is_cube_shape(out, q_len, d.heads, d.head_dim) {
        return Err(LaunchError::OutputShape);
    }
    match position {
        PositionInput::Host(start) => attend_on_host(q_len, start, d, knobs, sm100),
        PositionInput::Device(_) => {
            let even: usize = as_flag(q_len % knobs.bn_decode == 0);
            let mut call: KernelCall = new_call(
                Kernel::FmhaCausal,
                vec![ATTN_BM_DECODE, 1, d.head_dim],
                vec![ATTN_BM_DECODE, knobs.bn_decode, d.head_dim, 1, even],
            );
            call.ints = vec![d.heads / d.kv_heads];
            assert(call.tile@ =~= seq![ATTN_BM_DECODE, 1, d.head_dim]);
            assert(call.generics@ =~= seq![
                ATTN_BM_DECODE,
                knobs.bn_decode,
                d.head_dim,
                1usize,
                even,
            ]);
            assert(call.ints@ =~= seq![group_size(d)]);
            Ok(call)
        },
    }
}

/// A prefill that groups heads for the cache covers every query and every head: there is
/// a block for each run of `bm` queries and each group of heads, the runs cover the
/// queries with none to spare, the groups are all heads, and the groups that are worked
/// on together are at least one and at most all.
pub proof fn law_lpt_covers(
    q_len: usize,
    start: usize,
    group: usize,
    bm: usize,
    bn: usize,
    d: AttnDims,
    knobs: AttnKnobs,
)
    requires
        1 <= group <= d.heads,
        d.heads % group == 0,
        q_len >= 1,
        bm >= 1,
        q_len + bm <= usize::MAX,
        q_len * d.heads <= usize::MAX,
    ensures
        ({
            let c = lpt_call(q_len, start, group, bm, bn, d, knobs);
            let blocks = c.ints[4];
            let groups = c.ints[5];
            let swizzle = c.ints[6];
            &&& c.grid matches Some(g) && g.x == blocks * groups && g.y == 1 && g.z == 1
            &&& (blocks - 1) * bm < q_len <= blocks * bm
            &&& groups * group == d.heads
            &&& 1 <= swizzle <= groups
            &&& c.ints[7] * swizzle <= groups
        }),
{
    let c = lpt_call(q_len, start, group, bm, bn, d, knobs);
    let blocks = blocks_for(q_len as int, bm as int);
    let groups = d.heads / group;
    law_blocks_cover(q_len as int, bm as int);
    assert(1 <= groups <= d.heads && groups * group == d.heads) by (nonlinear_arith)
        requires
            groups == d.heads / group,
            1 <= group <= d.heads,
            d.heads % group == 0,
    ;
    assert(blocks <= q_len) by (nonlinear_arith)
        requires
            blocks == (q_len + bm - 1) / bm as int,
            bm >= 1,
            q_len >= 1,
    ;
    assert(0 <= blocks * groups <= q_len * d.heads) by (nonlinear_arith)
        requires
            0 <= blocks <= q_len,
            0 <= groups <= d.heads,
    ;
    let swizzle = swizzle_of(q_len, groups, d, knobs);
    let whole = groups as int / swizzle;
    assert(whole * swizzle <= groups) by (nonlinear_arith)
        requires
            whole == groups as int / swizzle,
            swizzle >= 1,
            groups >= 0,
    ;
}

} // verus!
