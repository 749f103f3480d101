//! Which tensors the kernels of a step take, and how they divide them.
use crate::attention::{
    attend_spec, fused_prefill_spec, host_attention, kv_update_spec, packed_heads, rope_spec,
    swizzle_of, AttnDims, AttnKnobs, PositionInput,
};
use crate::gemm::embed_spec;
use crate::gguf::dims_product;
use crate::graph::half_key;
use crate::kernel::{CallModel, Kernel, LaunchError};
use crate::knobs::{heads_that_fit, law_floor_pow2, lpt_swizzle_spec};
use crate::pointwise::{add_norm_spec, norm_block, norm_spec, pair_spec, row_spec};
use crate::products::{
    dequant_spec, gemv_part, part_spec, q8_0_tiles, soa_call, unpack_tile, Part, Soa,
};
use crate::weights::MatrixWeight;
use vstd::prelude::*;

verus! {

/// Sums and gates are of two matrices of one shape, and give one of that shape; each row goes
/// in blocks of 1024.
pub proof fn law_pairs_have_one_shape(kernel: Kernel, a: Seq<usize>, b: Seq<usize>, out: Seq<usize>)
    ensures
        pair_spec(kernel, a, b, out) is Ok <==> a == b && out == a && a.len() == 2,
        pair_spec(kernel, a, b, out) matches Ok(c) ==> c.kernel == kernel && c.tile == seq![
            1usize,
            1024usize,
        ] && c.generics == seq![1024usize],
{
}

/// A row is taken out of a matrix that has it, and is as long as the matrix is wide.
pub proof fn law_rows_are_in_their_matrix(src: Seq<usize>, row: usize, out: Seq<usize>)
    ensures
        row_spec(src, row, out) is Ok <==> src.len() == 2 && row < src[0] && out == seq![src[1]],
        row_spec(src, row, out) matches Ok(c) ==> c.kernel is GatherRow && c.ints == seq![row]
            && c.tile == c.generics,
        src.len() == 2 && row >= src[0] ==> row_spec(src, row, out) == Err::<CallModel, LaunchError>(
            LaunchError::RowIndex { row, rows: src[0] },
        ),
{
}

/// A norm goes row by row over the last `n` elements, and gives as many; one vector is one row.
pub proof fn law_norms_keep_their_elements(
    x: Seq<usize>,
    n: usize,
    out: Seq<usize>,
    chosen: usize,
    block: usize,
)
    requires
        chosen >= 1,
    ensures
        norm_spec(x, n, out, chosen) matches Ok(m) ==> (x == seq![n] && m.rows == 1 || x == seq![
            m.rows,
            n,
        ]) && (m.copies <==> x.len() == 1) && dims_product(out) == Some((m.rows * n) as usize)
            && m.call.tile == seq![1, n] && m.call.generics == seq![n, norm_block(n, chosen)],
        add_norm_spec(x, x, n, out, out, block) matches Ok(m) ==> (x == seq![n] && m.rows == 1 || x
            == seq![m.rows, n]) && (m.copies <==> x.len() == 1) && m.call.tile == seq![1, n]
            && m.call.second_tile == seq![1, n] && m.call.generics == seq![n, block],
        norm_spec(seq![n], n, out, chosen) is Ok <==> dims_product(out) == Some(n),
        add_norm_spec(seq![n], seq![n], n, out, out, block) is Ok <==> dims_product(out) == Some(n),
{
    assert(1 * n == n);
    if x.len() == 1 {
        assert(x =~= seq![x[0]]);
    }
    if x.len() == 2 {
        assert(x =~= seq![x[0], x[1]]);
    }
}

/// Hidden states are normed in the chosen blocks where these divide them, else in blocks of
/// 512; what is shorter than 512 goes in blocks of 128.
pub proof fn law_norm_blocks(n: usize, chosen: usize)
    requires
        chosen >= 1,
    ensures
        n < 512 ==> norm_block(n, chosen) == 128,
        n >= 512 && chosen <= n && n % chosen == 0 ==> norm_block(n, chosen) == chosen,
        n >= 512 && !(chosen <= n && n % chosen == 0) ==> norm_block(n, chosen) == 512,
{
}

/// Heads are rotated in two halves, from the position on that is told; the result has the
/// shape of what is rotated.
pub proof fn law_rotation_keeps_the_shape(
    x: Seq<usize>,
    position: PositionInput,
    out: Seq<usize>,
    head_dim: usize,
)
    ensures
        rope_spec(x, position, out, head_dim) matches Ok(c) ==> x == seq![x[0], x[1], 128usize]
            && head_dim == 128 && out == x && c.tile == seq![1usize, 1, 64] && c.generics == seq![
            128usize,
            64,
        ],
        position matches PositionInput::Host(start) ==> (x == seq![x[0], x[1], 128usize] && head_dim
            == 128 && out == x ==> (rope_spec(x, position, out, head_dim) matches Ok(c) && c.ints
            == seq![start] && c.kernel is RopeSeq)),
{
    if x.len() == 3 {
        assert(x =~= seq![x[0], x[1], x[2]]);
    }
}

/// Keys and values of a step go into the caches at the positions of its tokens: accepted
/// exactly where both have the shape of the key heads, every position is in the cache, and
/// there is one.
pub proof fn law_keys_and_values_fit_the_cache(
    k: Seq<usize>,
    v: Seq<usize>,
    start: usize,
    d: AttnDims,
    cached: bool,
    bm: usize,
    chunk: usize,
)
    requires
        k.len() == 3,
        start + k[0] <= usize::MAX,
    ensures
        ({
            let r = kv_update_spec(k, v, PositionInput::Host(start), d, cached, bm, chunk);
            &&& r is Ok <==> k == seq![k[0], d.kv_heads, d.head_dim] && v == k && start + k[0]
                <= d.max_seq_len && cached
            &&& r matches Ok(c) ==> c.kernel is KvCacheUpdateSeq && c.ints == seq![start, k[0]]
                && c.tile == seq![1usize, bm, 128] && c.second_tile == c.tile && c.generics
                == seq![d.head_dim, 128, bm]
            &&& k == seq![k[0], d.kv_heads, d.head_dim] && v == k && start + k[0] > d.max_seq_len
                ==> r == Err::<CallModel, LaunchError>(
                LaunchError::Range { start, end: (start + k[0]) as usize, limit: d.max_seq_len },
            )
        }),
{
}

/// One token whose position is on the device goes into caches whose every position the kernel
/// may reach.
pub proof fn law_recorded_keys_reach_every_position(
    k: Seq<usize>,
    v: Seq<usize>,
    s: &[usize],
    d: AttnDims,
    cached: bool,
    bm: usize,
    chunk: usize,
)
    requires
        k.len() == 3,
    ensures
        ({
            let r = kv_update_spec(k, v, PositionInput::Device(s), d, cached, bm, chunk);
            &&& r is Ok <==> k == seq![1usize, d.kv_heads, d.head_dim] && v == k && s@ == seq![
                1usize,
            ] && cached
            &&& r matches Ok(c) ==> c.kernel is KvCacheUpdateSeqDynpos && c.ints == seq![1usize]
                && c.tile == seq![1usize, d.max_seq_len, chunk] && c.second_tile == c.tile
                && c.generics == seq![d.head_dim, chunk, d.max_seq_len]
        }),
{
}

/// Norm, rotation and cache update of a prefill in one take queries, keys and values of the
/// same tokens and caches of the shape of the key heads.
pub proof fn law_fused_prefill_takes_a_step(
    q: Seq<usize>,
    k: Seq<usize>,
    v: Seq<usize>,
    out: Seq<usize>,
    start: usize,
    d: AttnDims,
    n: usize,
)
    requires
        start + n <= usize::MAX,
        d.heads + d.kv_heads <= usize::MAX,
        q == seq![n, d.heads, d.head_dim],
        k == seq![n, d.kv_heads, d.head_dim],
    ensures
        ({
            let cache = Some(seq![d.kv_heads, d.max_seq_len, d.head_dim]);
            let r = fused_prefill_spec(q, k, v, out, PositionInput::Host(start), d, cache, cache);
            &&& r is Ok <==> v == k && out == q && d.head_dim % 2 == 0 && start + n
                <= d.max_seq_len
            &&& r matches Ok(c) ==> c.ints == seq![start, n, d.heads, d.kv_heads]
            &&& fused_prefill_spec(q, k, v, out, PositionInput::Host(start), d, None, cache) is Err
            &&& fused_prefill_spec(q, k, v, out, PositionInput::Host(start), d, cache, None) is Err
        }),
{
}

/// Attention of a step is accepted where queries and result have the shape of the heads and
/// the layer its caches; one token of a recorded step reads its position from the device.
pub proof fn law_attention_takes_queries(
    q: Seq<usize>,
    out: Seq<usize>,
    s: &[usize],
    d: AttnDims,
    cached: bool,
    knobs: AttnKnobs,
    sm100: bool,
    start: usize,
)
    requires
        q.len() == 3,
        knobs.bn_decode >= 1,
    ensures
        attend_spec(q, PositionInput::Host(start), out, d, cached, knobs, sm100) is Ok ==> q == seq![
            q[0],
            d.heads,
            d.head_dim,
        ] && out == q && cached,
        q == seq![q[0], d.heads, d.head_dim] && out == q && cached ==> attend_spec(
            q,
            PositionInput::Host(start),
            out,
            d,
            cached,
            knobs,
            sm100,
        ) == host_attention(q[0], start, d, knobs, sm100),
        attend_spec(q, PositionInput::Device(s), out, d, cached, knobs, sm100) is Ok <==> q == seq![
            1usize,
            d.heads,
            d.head_dim,
        ] && out == q && cached && s@ == seq![1usize],
        attend_spec(q, PositionInput::Device(s), out, d, cached, knobs, sm100) matches Ok(c)
            ==> c.kernel is FmhaCausal && c.tile == seq![1usize, 1, d.head_dim] && c.generics[0]
            == 1 && c.generics[1] == knobs.bn_decode && c.generics[2] == d.head_dim
            && c.generics[4] == (if knobs.bn_decode == 1 {
            1usize
        } else {
            0
        }),
{
    let bn = knobs.bn_decode as int;
    assert(bn > 1 ==> 1int % bn == 1) by (nonlinear_arith);
}

/// Which kernel attends: the one that groups heads for the cache where it is asked for, or,
/// where nothing is said, for 2048 queries and more that share keys on a device that is good
/// for it; else the one that packs heads where it is asked for; else the one of prefills, or
/// the plain one where that is not wanted. One query has blocks of its own.
pub proof fn law_attention_kernels(
    q_len: usize,
    start: usize,
    d: AttnDims,
    knobs: AttnKnobs,
    sm100: bool,
)
    requires
        d.kv_heads >= 1,
    ensures
        ({
            let lpt = (match knobs.gqa_lpt {
                Some(b) => b,
                None => q_len >= 2048 && d.heads as int / d.kv_heads as int > 1 && sm100,
            });
            let (bm, bn) = (if q_len == 1 {
                (1usize, knobs.bn_decode)
            } else {
                (knobs.bm_prefill, knobs.bn_prefill)
            });
            host_attention(q_len, start, d, knobs, sm100) matches Ok(c) ==> {
                &&& c.kernel is FmhaPrefillGqaLpt <==> lpt
                &&& c.kernel is FmhaPrefillGqa <==> !lpt && knobs.gqa
                &&& c.kernel is FmhaPrefillCausal <==> !lpt && !knobs.gqa && knobs.prefill
                &&& c.kernel is FlashAttnCausalSeq <==> !lpt && !knobs.gqa && !knobs.prefill
                &&& c.generics[0] == bm && c.generics[1] == bn
            }
        }),
        knobs.gqa_lpt == Some(false) && !knobs.gqa ==> host_attention(
            q_len,
            start,
            d,
            knobs,
            sm100,
        ) is Ok,
{
}

/// As many query heads are packed as was asked for, or all that share keys; they divide these.
pub proof fn law_packed_heads_share_keys(d: AttnDims, knobs: AttnKnobs)
    requires
        d.kv_heads >= 1,
    ensures
        packed_heads(d, knobs) matches Ok(g) ==> g >= 1 && (d.heads / d.kv_heads) % g == 0 && (
        knobs.gqa_group == 0 ==> g == d.heads / d.kv_heads) && (knobs.gqa_group != 0 ==> g
            == knobs.gqa_group),
        knobs.gqa_group == 0 && d.heads >= d.kv_heads ==> packed_heads(d, knobs) is Ok,
        knobs.gqa_group != 0 && (d.heads / d.kv_heads) % knobs.gqa_group != 0 ==> packed_heads(
            d,
            knobs,
        ) == Err::<usize, LaunchError>(LaunchError::Group { group: knobs.gqa_group }),
{
    let (h, k) = (d.heads as int, d.kv_heads as int);
    if h >= k {
        assert(h / k >= 1) by (nonlinear_arith)
            requires
                h >= k,
                k >= 1,
        ;
        assert((h / k) % (h / k) == 0) by (nonlinear_arith)
            requires
                h / k >= 1,
        ;
    }
}

/// The groups that are worked on together: as many as was asked for, or as fit the cache; at
/// least one and at most all.
pub proof fn law_swizzle_is_asked_for(q_len: usize, groups: usize, d: AttnDims, knobs: AttnKnobs)
    requires
        groups >= 1,
    ensures
        1 <= swizzle_of(q_len, groups, d, knobs) <= groups,
        1 <= knobs.swizzle <= groups ==> swizzle_of(q_len, groups, d, knobs) == knobs.swizzle,
        knobs.swizzle > groups ==> swizzle_of(q_len, groups, d, knobs) == groups,
        knobs.swizzle == 0 ==> swizzle_of(q_len, groups, d, knobs) == lpt_swizzle_spec(
            q_len,
            d.head_dim,
            groups,
            knobs.l2_bytes,
        ),
{
    law_floor_pow2(heads_that_fit(q_len, d.head_dim, knobs.l2_bytes) as nat);
}

/// A buffer of a step has two bytes per element, and as many elements as its sizes multiply to.
pub proof fn law_buffers_hold_half_precision(a: usize, b: usize)
    requires
        2 * (a * b) <= usize::MAX,
    ensures
        half_key(seq![a, b]).numel() == a * b,
        half_key(seq![a, b]).bytes() == 2 * (a * b),
        half_key(seq![a]).bytes() == 2 * a,
{
    let (two, one) = (seq![a, b], seq![a]);
    reveal_with_fuel(dims_product, 3);
    assert(two.drop_last() =~= one);
    assert(one.drop_last() =~= Seq::<usize>::empty());
    assert(dims_product(one.drop_last()) == Some(1usize));
    assert(1 * a == a);
    assert(dims_product(one) == Some(a));
    assert(two.last() == b);
    assert(a * b >= 0) by (nonlinear_arith)
        requires
            a >= 0,
            b >= 0,
    ;
}

/// A product with a quantized weight takes a vector as long as the weight is wide and gives one
/// as long as it is high; split Q8_0 weights have to be wide in 512s and high in eights.
pub proof fn law_vectors_fit_their_weight(p: Part, len: usize, out: Seq<usize>)
    ensures
        gemv_part(p, len, out) is Ok ==> p.quantized && len == p.cols && out == seq![p.rows],
        p.quantized && len == p.cols <= i32::MAX && out == seq![p.rows] && p.native && (p.dtype
            is Q4K || p.dtype is Q5K || p.dtype is Q6K) ==> gemv_part(p, len, out) is Ok,
        p.dtype is Q8_0 && p.soa == Soa::Q8_0 && p.quantized && len == p.cols <= i32::MAX && out
            == seq![p.rows] ==> (gemv_part(p, len, out) is Ok <==> p.cols % 512 == 0 && p.rows % 8
            == 0),
        p.quantized && len != p.cols ==> gemv_part(p, len, out) == Err::<CallModel, LaunchError>(
            LaunchError::InputShape,
        ),
        q8_0_tiles(p) is Ok <==> p.soa == Soa::Q8_0 && p.cols % 512 == 0 && p.rows % 8 == 0,
{
}

/// The sizes of a row that a kernel is compiled for: elements as the blocks of the file hold
/// them; or, split, bytes of the integers and counts of scales, with 32 elements to a scale in
/// Q8_0 and Q4K, two of them to a byte in the latter, and in Q6K 16 to a scale and 256 to a
/// scale of scales.
pub proof fn law_kernels_know_their_rows(p: Part, len: usize, out: Seq<usize>, scratch: usize)
    ensures
        gemv_part(p, len, out) matches Ok(c) ==> {
            &&& p.dtype is Q8_0 ==> c.generics == seq![p.cols, p.cols / 32, 1]
            &&& !(p.dtype is Q8_0) && p.soa == Soa::Q4K ==> c.generics == seq![
                p.cols / 2,
                p.cols / 32,
                1,
            ]
            &&& !(p.dtype is Q8_0) && p.soa == Soa::Q6K ==> c.generics == seq![
                p.cols,
                p.cols / 16,
                p.cols / 256,
                1,
            ]
            &&& !(p.dtype is Q8_0) && !(p.soa == Soa::Q4K) && !(p.soa == Soa::Q6K) ==> c.generics
                == seq![p.cols] && c.tile == seq![1usize] && c.grid->0.x == p.rows
        },
        dequant_spec(p, scratch) matches Ok(c) ==> {
            &&& p.soa == Soa::Q4K ==> c.generics == seq![p.cols / 2, p.cols / 32]
            &&& p.soa == Soa::Q6K ==> c.generics == seq![p.cols, p.cols / 16, p.cols / 256]
        },
        soa_call(Soa::Q8_0, p.rows, p.cols, true).tile == seq![8usize],
        soa_call(Soa::Q4K, p.rows, p.cols, true).tile == seq![16usize],
        soa_call(Soa::Q6K, p.rows, p.cols, true).tile == seq![8usize],
        soa_call(p.soa, p.rows, p.cols, true).ints == seq![p.rows],
{
}

/// An embedding is taken in the tiles that its type is unpacked in, or in the blocks of the
/// step where it is not quantized; tokens and result have to fit it.
pub proof fn law_embeddings_are_unpacked_as_weights(
    m: MatrixWeight,
    hidden: usize,
    block: usize,
    out: Seq<usize>,
    n: usize,
)
    requires
        m.stack().len() == 1,
        m.stack()[0].dims().len() == 2,
    ensures
        ({
            let p = part_spec(m.stack()[0]);
            let r = embed_spec(m, hidden, block, Some((out, n)));
            &&& m.stack()[0] is F16 ==> (r matches Ok(c) && c.kernel is EmbeddingBatch && c.tile
                == seq![1, block] && c.generics == seq![hidden, block])
            &&& !(m.stack()[0] is F16) ==> (r is Ok <==> p.cols == hidden && out == seq![n, hidden])
            &&& !(m.stack()[0] is F16) ==> (r matches Ok(c) ==> c.generics == seq![hidden] && c.tile
                == seq![1, unpack_tile(p.dtype)->0])
        }),
{
}

} // verus!
