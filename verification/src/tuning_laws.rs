//! What tunes the kernels: each variable by itself, and what it is where nothing is said.
use crate::attention::{knobs_of, AttnEnv};
use crate::cublas::{
    algo_spec, compute_type_spec, gemm_dims_check, ComputeType, GemmAlgo, GemmDims,
};
use crate::decode_plan::{
    decode_knobs_of, fuses_lm_head, kv_width, leaves_logits, qkv_width, tail_steps, DecodeDims,
    DecodeEnv, DecodeKnobs, DecodeMode,
};
use crate::kernel::{CallModel, Hint, Kernel, LaunchError};
use crate::knobs::{bool_hint_or, bool_or, text_of, usize_hint_or, usize_or};
use crate::pointwise::{argmax_spec, law_blocks_cover};
use crate::sampling::{logits_len, ArgmaxError};
use crate::text::{decimal_text, has_prefix, law_trim, lower, lower_all, trim_spec};
use vstd::prelude::*;

verus! {

/// The search for the greatest logit covers all of them: as many blocks as it takes, and no
/// more.
pub proof fn law_search_covers_logits(len: usize, block: usize)
    requires
        len >= 1,
        block >= 1,
        len + block - 1 <= usize::MAX,
    ensures
        argmax_spec(0, block) == Err::<(CallModel, usize), LaunchError>(LaunchError::Empty),
        argmax_spec(len, block) matches Ok((call, n)) && len <= n * block && (n - 1) * block < len
            && call.kernel == Kernel::ArgmaxBlocks && call.ints == seq![len],
        logits_len(seq![len]) == Ok::<usize, ArgmaxError>(len),
        logits_len(seq![0]) == Err::<usize, ArgmaxError>(ArgmaxError::Empty),
{
    law_blocks_cover(len as int, block as int);
    let (l, b) = (len as int, block as int);
    assert((l + b - 1) / b <= l + b - 1) by (nonlinear_arith)
        requires
            l >= 1,
            b >= 1,
    ;
}

/// Output head and search are one kernel only where the device looks for the greatest logit,
/// nobody else needs the logits, and both divide evenly into its blocks of 64 and 32.
pub proof fn law_fused_head_is_greedy(asked: bool, mode: DecodeMode, d: DecodeDims)
    ensures
        fuses_lm_head(asked, mode, d) ==> asked && mode.plain_lm_head && mode.device_argmax
            && !mode.sampling && !mode.debug_logits,
        fuses_lm_head(asked, mode, d) ==> d.vocab % 64 == 0 && d.hidden % 32 == 0,
        asked && mode.plain_lm_head && mode.device_argmax && !mode.sampling && !mode.debug_logits
            && d.vocab % 64 == 0 && d.hidden % 32 == 0 ==> fuses_lm_head(asked, mode, d),
{
}

/// How the steps of one token are tuned: every variable sets its own value and no other.
pub proof fn law_decode_knobs(env: DecodeEnv, mode: DecodeMode, d: DecodeDims)
    ensures
        ({
            let k = decode_knobs_of(env, mode, d);
            &&& k.attn_bn == usize_or(text_of(env.attn_bn), 32)
            &&& k.rms_block == usize_or(text_of(env.rms_block), 4096)
            &&& k.embed_block == usize_or(text_of(env.embed_block), 1024)
            &&& k.kv_splits == usize_or(text_of(env.kv_splits), 16)
            &&& k.decode_latency == usize_or(text_of(env.decode_latency), 4)
            &&& k.decode_occupancy == usize_hint_or(text_of(env.decode_occupancy), 2)
            &&& k.merge_chunk_d == usize_or(text_of(env.merge_chunk_d), 16)
            &&& k.merge_latency == usize_or(text_of(env.merge_latency), 2)
            &&& k.rope_latency == usize_or(text_of(env.rope_latency), 2)
            &&& k.fused_rope == bool_or(text_of(env.fused_rope), true)
            &&& k.kv_chunk_d == usize_or(text_of(env.kv_chunk_d), 32)
            &&& k.flash_kv_splits == usize_or(text_of(env.flash_kv_splits), 2)
            &&& k.fused_lm_head == fuses_lm_head(
                bool_or(text_of(env.fused_lm_head_argmax), false),
                mode,
                d,
            )
            &&& k.argmax_block == (if k.fused_lm_head {
                64
            } else {
                usize_or(text_of(env.argmax_block), 128)
            })
            &&& k.attention is Grouped <==> bool_or(text_of(env.flash_decode), false)
            &&& k.attention is Split <==> !(k.attention is Grouped) && bool_or(
                text_of(env.split_kv),
                true,
            )
            &&& k.rope_hint is Clustered <==> bool_hint_or(text_of(env.rope_cga), false) == Some(
                true,
            )
            &&& !(k.rope_hint is Clustered) ==> k.rope_hint == (match usize_hint_or(
                text_of(env.rope_occupancy),
                1,
            ) {
                Some(n) => Hint::Occupancy(n),
                None => Hint::Default,
            })
        }),
{
}

/// Queries, keys and values stand side by side in one row.
pub proof fn law_rows_hold_queries_keys_and_values(p: DecodeDims)
    requires
        p.heads * p.head_dim + 2 * (p.kv_heads * p.head_dim) <= usize::MAX,
        0 <= p.heads * p.head_dim,
        0 <= p.kv_heads * p.head_dim,
    ensures
        kv_width(p) == p.kv_heads * p.head_dim,
        qkv_width(p) == p.heads * p.head_dim + 2 * kv_width(p),
{
}

/// How attention is tuned: every variable sets its own value and no other.
pub proof fn law_attention_knobs(env: AttnEnv)
    ensures
        ({
            let k = knobs_of(env);
            &&& k.bn_decode == usize_or(text_of(env.bn_decode), 32)
            &&& k.bn_prefill == usize_or(text_of(env.bn_prefill), 32)
            &&& k.bm_prefill == usize_or(text_of(env.bm_prefill), 16)
            &&& k.gqa_lpt is Some <==> env.gqa_lpt is Some
            &&& k.gqa_lpt matches Some(b) ==> b == bool_or(text_of(env.gqa_lpt), false)
            &&& k.gqa == bool_or(text_of(env.gqa), false)
            &&& k.prefill == bool_or(text_of(env.prefill), true)
            &&& k.gqa_group == usize_or(text_of(env.gqa_group), 0)
            &&& k.latency == usize_or(text_of(env.latency), 2)
            &&& k.occupancy == usize_hint_or(text_of(env.occupancy), 2)
            &&& k.schedule == usize_or(text_of(env.schedule), 1)
            &&& k.mask_split == bool_or(text_of(env.mask_split), false)
            &&& k.l2_bytes == usize_or(text_of(env.l2_bytes), 52428800)
            &&& k.swizzle == usize_or(text_of(env.swizzle), 0)
        }),
{
}

proof fn lemma_digit(n: nat)
    requires
        n <= 15,
    ensures
        n < 10 ==> decimal_text(n) == seq![('0' as u32 + n) as char],
        n >= 10 ==> decimal_text(n) == seq!['1', ('0' as u32 + (n - 10)) as char],
{
    reveal_with_fuel(decimal_text, 2);
    if n >= 10 {
        assert(n / 10 == 1);
        assert(decimal_text(1) =~= seq!['1']);
        assert(decimal_text(n) =~= seq!['1', ('0' as u32 + (n - 10)) as char]);
    }
}

/// An algorithm is named by its number from 0 to 15, alone, after `algo`, or between `algo` and
/// `_tensor_op`.
pub proof fn law_algorithms_have_numbers(n: nat)
    requires
        n <= 15,
    ensures
        algo_spec(decimal_text(n)) == GemmAlgo::TensorOp(n as u8),
        algo_spec("algo"@ + decimal_text(n)) == GemmAlgo::TensorOp(n as u8),
        algo_spec("algo"@ + decimal_text(n) + "_tensor_op"@) == GemmAlgo::TensorOp(n as u8),
{
    let d = decimal_text(n);
    let (a, t) = ("algo"@, "_tensor_op"@);
    lemma_digit(n);
    reveal_strlit("algo");
    reveal_strlit("_tensor_op");
    reveal_strlit("default");
    reveal_strlit("default_tensor_op");
    reveal_strlit("tensor_op");
    lemma_as_it_is(d);
    lemma_as_it_is(a + d);
    lemma_as_it_is(a + d + t);
    assert(d[0] != 't' && d[0] != 'd' && d[0] != 'a');
    assert("default"@[0] == 'd' && "default_tensor_op"@[0] == 'd' && "tensor_op"@[0] == 't');
    assert((a + d)[0] == 'a' && (a + d + t)[0] == 'a');
    assert(!has_prefix(d, a)) by {
        if has_prefix(d, a) {
            assert(d.subrange(0, 4)[0] == a[0]);
        }
    }
    assert((a + d).subrange(0, 4) =~= a);
    assert((a + d).subrange(4, (a + d).len() as int) =~= d);
    assert((a + d + t).subrange(0, 4) =~= a);
    let rest = (a + d + t).subrange(4, (a + d + t).len() as int);
    assert(rest =~= d + t);
    assert(rest.subrange(rest.len() - 10, rest.len() as int) =~= t);
    assert(rest.subrange(0, rest.len() - 10) =~= d);
}

/// A text of small letters, digits and underscores is read as it is.
proof fn lemma_as_it_is(s: Seq<char>)
    requires
        s.len() > 0,
        forall|i: int|
            0 <= i < s.len() ==> 'a' <= #[trigger] s[i] <= 'z' || '0' <= s[i] <= '9' || s[i] == '_',
    ensures
        lower_all(trim_spec(s)) == s,
{
    let none = Seq::<char>::empty();
    assert('a' <= s[0] <= 'z' || '0' <= s[0] <= '9' || s[0] == '_');
    assert(s.last() == s[s.len() - 1]);
    law_trim(none, s, none);
    assert forall|i: int| 0 <= i < s.len() implies lower(#[trigger] s[i]) == s[i] by {}
    assert(lower_all(s) =~= s);
}

/// Algorithms by name; every other text means the default on tensor cores.
pub proof fn law_algorithms_have_names()
    ensures
        algo_spec("default"@) == GemmAlgo::Default,
        algo_spec("default_tensor_op"@) == GemmAlgo::DefaultTensorOp,
        algo_spec("tensor_op"@) == GemmAlgo::DefaultTensorOp,
        algo_spec(Seq::empty()) == GemmAlgo::DefaultTensorOp,
        algo_spec("algo"@) == GemmAlgo::DefaultTensorOp,
{
    reveal_strlit("default");
    reveal_strlit("default_tensor_op");
    reveal_strlit("tensor_op");
    reveal_strlit("algo");
    lemma_as_it_is("default"@);
    lemma_as_it_is("default_tensor_op"@);
    lemma_as_it_is("tensor_op"@);
    lemma_as_it_is("algo"@);
    let none = Seq::<char>::empty();
    assert(trim_spec(none) =~= none);
    assert(lower_all(none) =~= none);
    assert("default_tensor_op"@.len() != "default"@.len());
    assert("tensor_op"@.len() != "default"@.len());
    assert("algo"@.subrange(0, 4) =~= "algo"@);
    assert("algo"@.subrange(4, 4) =~= none);
}

/// A product accumulates in half precision where the variable says so or nothing, up to the
/// rows that another one names; devices of capability 10.0 do so by themselves only for one
/// product.
pub proof fn law_half_precision_is_asked_for(
    capability: Option<(i32, i32)>,
    m: usize,
    n: usize,
    k: usize,
    said: Seq<char>,
    limit: usize,
)
    ensures
        compute_type_spec(capability, m, n, k, Some("0"@), None) == ComputeType::SingleFastHalf,
        said != "0"@ ==> compute_type_spec(capability, m, n, k, Some(said), None)
            == ComputeType::Half,
        capability != Some((10i32, 0i32)) ==> compute_type_spec(capability, m, n, k, None, None)
            == ComputeType::Half,
        compute_type_spec(Some((10i32, 0i32)), m, n, k, None, None) == ComputeType::Half <==> m
            == 51200 && n == 1 && k == 5120,
        said != "0"@ ==> (compute_type_spec(
            capability,
            m,
            n,
            k,
            Some(said),
            Some(decimal_text(limit as nat)),
        ) == ComputeType::Half <==> m <= limit),
{
    crate::text::law_decimal_round_trip(limit);
}

/// The library takes products with at least one and at most 2147483647 of each size.
pub proof fn law_product_sizes_fit(d: GemmDims)
    ensures
        gemm_dims_check(d) is Ok <==> 1 <= d.m <= 2147483647 && 1 <= d.n <= 2147483647 && 1 <= d.k
            <= 2147483647,
        gemm_dims_check(d) matches Ok(e) ==> e == d,
        d.m == 0 || d.n == 0 || d.k == 0 ==> gemm_dims_check(d) == Err::<GemmDims, LaunchError>(
            LaunchError::Empty,
        ),
{
}

/// A replay leaves logits behind exactly where its output head writes them.
pub proof fn law_replays_leave_logits(p: DecodeDims, k: DecodeKnobs)
    ensures
        leaves_logits(k) <==> tail_steps(p, k)[1].writes[0].buf is Logits,
{
}

} // verus!
