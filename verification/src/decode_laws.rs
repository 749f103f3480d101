//! What holds of the steps of one token.
use crate::decode_plan::{
    all_heads, argmax_blocks_of, argmax_step, attention_steps, attn_width, body_steps, buf_shape,
    cache_update_step, decode_sizes, decode_steps, down_step, embed_step, ff_norm_step, ff_steps,
    final_norm_step, first_norm_step, flash_rows, front_steps, fused_lm_head_step, fused_rope_step,
    gate_up_step, gate_up_width, grouped_attention_step, kv_width, layer_steps, lemma_decode_sizes,
    lm_head_step, merge_attention_step, next_norm_step, o_proj_step, plain_attention_step,
    qk_norm_step, qk_rope_step, qkv_step, qkv_width, reduce_step, rope_steps, share, silu_step,
    split_attention_step, tail_steps, Buf, DecodeAttention, DecodeDims, DecodeKnobs, Piece, Shape,
    StepModel,
};
use crate::knobs::ceil_pow2;
use vstd::prelude::*;

verus! {

/// Whether a step writes a buffer.
pub open spec fn writes_to(s: StepModel, b: Buf) -> bool {
    exists|i: int| 0 <= i < s.writes.len() && (#[trigger] s.writes[i]).buf == b
}

/// Whether one of the first `k` steps writes a buffer.
pub open spec fn wrote(steps: Seq<StepModel>, k: int, b: Buf) -> bool
    decreases k,
{
    k > 0 && (wrote(steps, k - 1, b) || writes_to(steps[k - 1], b))
}

/// Buffers that hold something before the first step: the token, the position, the length
/// of the cache, and what belongs to the model.
pub open spec fn given(b: Buf) -> bool {
    match b {
        Buf::TokenIds => true,
        Buf::Position => true,
        Buf::KvLength => true,
        Buf::InvFreq => true,
        Buf::Weight(_) => true,
        _ => false,
    }
}

/// Every buffer that a step reads is given, is in `entry`, or was written by a step
/// before it.
pub open spec fn flows(steps: Seq<StepModel>, entry: Set<Buf>) -> bool {
    forall|k: int, i: int|
        0 <= k < steps.len() && 0 <= i < steps[k].reads.len() ==> supplied(
            steps,
            k,
            (#[trigger] steps[k].reads[i]).buf,
            entry,
        )
}

/// A buffer is given, in `entry`, or written by the first `k` steps.
pub open spec fn supplied(steps: Seq<StepModel>, k: int, b: Buf, entry: Set<Buf>) -> bool {
    given(b) || entry.contains(b) || wrote(steps, k, b)
}

proof fn lemma_wrote(steps: Seq<StepModel>, j: int, i: int, k: int)
    requires
        0 <= j < k <= steps.len(),
        0 <= i < steps[j].writes.len(),
    ensures
        wrote(steps, k, steps[j].writes[i].buf),
    decreases k,
{
    if j < k - 1 {
        lemma_wrote(steps, j, i, k - 1);
    }
}

proof fn lemma_wrote_front(a: Seq<StepModel>, c: Seq<StepModel>, k: int, b: Buf)
    requires
        0 <= k <= a.len(),
    ensures
        wrote(a + c, k, b) == wrote(a, k, b),
    decreases k,
{
    if k > 0 {
        lemma_wrote_front(a, c, k - 1, b);
        assert((a + c)[k - 1] == a[k - 1]);
    }
}

proof fn lemma_wrote_back(a: Seq<StepModel>, c: Seq<StepModel>, k: int, b: Buf)
    requires
        0 <= k <= c.len(),
    ensures
        wrote(a + c, a.len() + k, b) == (wrote(a, a.len() as int, b) || wrote(c, k, b)),
    decreases k,
{
    if k > 0 {
        lemma_wrote_back(a, c, k - 1, b);
        assert((a + c)[a.len() + k - 1] == c[k - 1]);
    } else {
        lemma_wrote_front(a, c, a.len() as int, b);
    }
}

/// Steps go on from steps that write what they need.
proof fn lemma_flows_on(a: Seq<StepModel>, c: Seq<StepModel>, entry: Set<Buf>, needs: Set<Buf>)
    requires
        flows(a, entry),
        flows(c, needs),
        forall|b: Buf| #[trigger]
            needs.contains(b) ==> entry.contains(b) || wrote(a, a.len() as int, b),
    ensures
        flows(a + c, entry),
{
    let all = a + c;
    assert forall|k: int, i: int|
        0 <= k < all.len() && 0 <= i < all[k].reads.len() implies supplied(
        all,
        k,
        (#[trigger] all[k].reads[i]).buf,
        entry,
    ) by {
        let b = all[k].reads[i].buf;
        if k < a.len() {
            assert(all[k] == a[k]);
            assert(supplied(a, k, a[k].reads[i].buf, entry));
            lemma_wrote_front(a, c, k, b);
        } else {
            let j = k - a.len();
            assert(all[k] == c[j]);
            assert(supplied(c, j, c[j].reads[i].buf, needs));
            lemma_wrote_back(a, c, j, b);
        }
    }
}

/// A stretch lies within its buffer. Weights and the rotary table belong to the model.
pub open spec fn within(p: DecodeDims, k: DecodeKnobs, x: Piece) -> bool {
    match buf_shape(p, k, x.buf) {
        Some(shape) => x.from + x.shape.elems() <= shape.elems(),
        None => true,
    }
}

/// Everything that a step reads and writes lies within its buffer.
pub open spec fn step_within(p: DecodeDims, k: DecodeKnobs, s: StepModel) -> bool {
    &&& forall|i: int| 0 <= i < s.reads.len() ==> within(p, k, #[trigger] s.reads[i])
    &&& forall|i: int| 0 <= i < s.writes.len() ==> within(p, k, #[trigger] s.writes[i])
}

/// A step writes no buffer that it reads, and no buffer twice.
pub open spec fn no_hazard(s: StepModel) -> bool {
    &&& forall|i: int, j: int|
        0 <= i < s.reads.len() && 0 <= j < s.writes.len() ==> (#[trigger] s.reads[i]).buf != (
        #[trigger] s.writes[j]).buf
    &&& forall|i: int, j: int|
        0 <= i < j < s.writes.len() ==> (#[trigger] s.writes[i]).buf != (
        #[trigger] s.writes[j]).buf
}

/// The heads divide evenly, and the grouped attention kernel keeps the cache in one part:
/// with more parts it writes that many times what its output holds.
pub open spec fn sound_dims(p: DecodeDims, k: DecodeKnobs) -> bool {
    &&& decode_sizes(p, k)
    &&& p.heads % p.kv_heads == 0
    &&& k.attention is Grouped ==> k.flash_kv_splits == 1
}

/// A step is in order.
pub open spec fn step_sound(p: DecodeDims, k: DecodeKnobs, s: StepModel) -> bool {
    step_within(p, k, s) && no_hazard(s)
}

proof fn lemma_row(x: usize)
    ensures
        Shape::D2(1, x).elems() == x,
{
    let one: usize = 1;
    assert(one * x == x) by (nonlinear_arith)
        requires
            one == 1,
    ;
}

proof fn lemma_cube(x: usize, y: usize)
    ensures
        Shape::D3(1, x, y).elems() == x * y,
{
    let one: usize = 1;
    assert((one * x) * y == x * y) by (nonlinear_arith)
        requires
            one == 1,
    ;
}

pub proof fn lemma_products(p: DecodeDims, k: DecodeKnobs)
    requires
        sound_dims(p, k),
    ensures
        (p.kv_heads * share(p)) * p.head_dim == p.heads * p.head_dim,
        p.kv_heads * share(p) == p.heads,
        Shape::D2(1, p.hidden).elems() == p.hidden,
        Shape::D2(1, p.inter).elems() == p.inter,
        Shape::D2(1, gate_up_width(p)).elems() == gate_up_width(p),
        Shape::D2(1, qkv_width(p)).elems() == qkv_width(p),
        Shape::D3(1, p.heads, p.head_dim).elems() == attn_width(p),
        Shape::D3(1, p.kv_heads, p.head_dim).elems() == kv_width(p),
        Shape::D3(1, all_heads(p), p.head_dim).elems() == attn_width(p) + kv_width(p),
        Shape::D2(p.heads, p.head_dim).elems() == attn_width(p),
        Shape::D2(p.kv_heads, p.head_dim).elems() == kv_width(p),
        all_heads(p) * p.head_dim == attn_width(p) + kv_width(p),
        k.attention is Grouped ==> flash_rows(p, k) == share(p),
{
    lemma_decode_sizes(p, k);
    let g = share(p);
    assert(p.kv_heads * g == p.heads) by (nonlinear_arith)
        requires
            g == p.heads / p.kv_heads,
            p.heads % p.kv_heads == 0,
            p.kv_heads >= 1,
    ;
    let h = all_heads(p);
    assert(h * p.head_dim == (p.heads + p.kv_heads) * p.head_dim) by (nonlinear_arith)
        requires
            h == p.heads + p.kv_heads,
    ;
    lemma_row(p.hidden);
    lemma_row(p.inter);
    lemma_row(gate_up_width(p));
    lemma_row(qkv_width(p));
    lemma_cube(p.heads, p.head_dim);
    lemma_cube(p.kv_heads, p.head_dim);
    lemma_cube(h, p.head_dim);
}

proof fn lemma_embed(p: DecodeDims, k: DecodeKnobs)
    requires
        sound_dims(p, k),
    ensures
        step_sound(p, k, embed_step(p)),
{
    lemma_decode_sizes(p, k);
    lemma_products(p, k);
}

proof fn lemma_first_norm(p: DecodeDims, k: DecodeKnobs)
    requires
        sound_dims(p, k),
    ensures
        step_sound(p, k, first_norm_step(p)),
{
    lemma_decode_sizes(p, k);
    lemma_products(p, k);
}

proof fn lemma_next_norm(p: DecodeDims, k: DecodeKnobs, l: usize)
    requires
        sound_dims(p, k),
    ensures
        step_sound(p, k, next_norm_step(p, k, l)),
{
    lemma_decode_sizes(p, k);
    lemma_products(p, k);
}

proof fn lemma_qkv(p: DecodeDims, k: DecodeKnobs, l: usize)
    requires
        sound_dims(p, k),
    ensures
        step_sound(p, k, qkv_step(p, l)),
{
    lemma_decode_sizes(p, k);
    lemma_products(p, k);
}

proof fn lemma_fused_rope(p: DecodeDims, k: DecodeKnobs, l: usize)
    requires
        sound_dims(p, k),
    ensures
        step_sound(p, k, fused_rope_step(p, l)),
{
    lemma_decode_sizes(p, k);
    lemma_products(p, k);
}

proof fn lemma_qk_norm(p: DecodeDims, k: DecodeKnobs, l: usize)
    requires
        sound_dims(p, k),
    ensures
        step_sound(p, k, qk_norm_step(p, l)),
{
    lemma_decode_sizes(p, k);
    lemma_products(p, k);
}

proof fn lemma_qk_rope(p: DecodeDims, k: DecodeKnobs)
    requires
        sound_dims(p, k),
    ensures
        step_sound(p, k, qk_rope_step(p, k)),
{
    lemma_decode_sizes(p, k);
    lemma_products(p, k);
}

proof fn lemma_cache_update(p: DecodeDims, k: DecodeKnobs, l: usize)
    requires
        sound_dims(p, k),
    ensures
        step_sound(p, k, cache_update_step(p, k, l)),
{
    lemma_decode_sizes(p, k);
    lemma_products(p, k);
}

proof fn lemma_split_attention(p: DecodeDims, k: DecodeKnobs, l: usize)
    requires
        sound_dims(p, k),
        k.attention is Split,
    ensures
        step_sound(p, k, split_attention_step(p, k, l)),
{
    lemma_decode_sizes(p, k);
    lemma_products(p, k);
}

proof fn lemma_merge_attention(p: DecodeDims, k: DecodeKnobs)
    requires
        sound_dims(p, k),
        k.attention is Split,
    ensures
        step_sound(p, k, merge_attention_step(p, k)),
{
    lemma_decode_sizes(p, k);
    lemma_products(p, k);
}

proof fn lemma_plain_attention(p: DecodeDims, k: DecodeKnobs, l: usize)
    requires
        sound_dims(p, k),
        k.attention is Plain,
    ensures
        step_sound(p, k, plain_attention_step(p, k, l)),
{
    lemma_decode_sizes(p, k);
    lemma_products(p, k);
}

proof fn lemma_grouped_attention(p: DecodeDims, k: DecodeKnobs, l: usize)
    requires
        sound_dims(p, k),
        k.attention is Grouped,
    ensures
        step_sound(p, k, grouped_attention_step(p, k, l)),
{
    lemma_decode_sizes(p, k);
    lemma_products(p, k);
    assert(p.kv_heads * share(p) == p.heads);
}

proof fn lemma_o_proj(p: DecodeDims, k: DecodeKnobs, l: usize)
    requires
        sound_dims(p, k),
    ensures
        step_sound(p, k, o_proj_step(p, l)),
{
    lemma_decode_sizes(p, k);
    lemma_products(p, k);
}

proof fn lemma_ff_norm(p: DecodeDims, k: DecodeKnobs, l: usize)
    requires
        sound_dims(p, k),
    ensures
        step_sound(p, k, ff_norm_step(p, k, l)),
{
    lemma_decode_sizes(p, k);
    lemma_products(p, k);
}

proof fn lemma_gate_up(p: DecodeDims, k: DecodeKnobs, l: usize)
    requires
        sound_dims(p, k),
    ensures
        step_sound(p, k, gate_up_step(p, l)),
{
    lemma_decode_sizes(p, k);
    lemma_products(p, k);
}

proof fn lemma_silu(p: DecodeDims, k: DecodeKnobs)
    requires
        sound_dims(p, k),
    ensures
        step_sound(p, k, silu_step(p)),
{
    lemma_decode_sizes(p, k);
    lemma_products(p, k);
}

proof fn lemma_down(p: DecodeDims, k: DecodeKnobs, l: usize)
    requires
        sound_dims(p, k),
    ensures
        step_sound(p, k, down_step(p, l)),
{
    lemma_decode_sizes(p, k);
    lemma_products(p, k);
}

proof fn lemma_final_norm(p: DecodeDims, k: DecodeKnobs)
    requires
        sound_dims(p, k),
    ensures
        step_sound(p, k, final_norm_step(p, k)),
{
    lemma_decode_sizes(p, k);
    lemma_products(p, k);
}

proof fn lemma_fused_lm_head(p: DecodeDims, k: DecodeKnobs)
    requires
        sound_dims(p, k),
    ensures
        step_sound(p, k, fused_lm_head_step(p, k)),
{
    lemma_decode_sizes(p, k);
    lemma_products(p, k);
}

proof fn lemma_lm_head(p: DecodeDims, k: DecodeKnobs)
    requires
        sound_dims(p, k),
    ensures
        step_sound(p, k, lm_head_step(p)),
{
    lemma_decode_sizes(p, k);
    lemma_products(p, k);
}

proof fn lemma_argmax(p: DecodeDims, k: DecodeKnobs)
    requires
        sound_dims(p, k),
    ensures
        step_sound(p, k, argmax_step(p, k)),
{
    lemma_decode_sizes(p, k);
    lemma_products(p, k);
}

proof fn lemma_reduce(p: DecodeDims, k: DecodeKnobs, b: usize)
    requires
        sound_dims(p, k),
    ensures
        step_sound(p, k, reduce_step(p, k, b)),
{
    lemma_decode_sizes(p, k);
    lemma_products(p, k);
}

/// The steps before a layer leave the hidden state behind, or the parts of its sum.
spec fn layer_entry(l: int) -> Set<Buf> {
    if l == 0 {
        set![Buf::Hidden]
    } else {
        set![Buf::HiddenAfterAttn, Buf::FfDown]
    }
}

proof fn lemma_front_flows(p: DecodeDims, k: DecodeKnobs, l: usize)
    ensures
        flows(front_steps(p, k, l), layer_entry(l as int)),
        wrote(front_steps(p, k, l), 2, Buf::Qkv),
        l > 0 ==> wrote(front_steps(p, k, l), 2, Buf::Hidden),
{
    let s = front_steps(p, k, l);
    lemma_wrote(s, 1, 0, 2);
    assert(s[1].writes[0].buf == Buf::Qkv);
    if l > 0 {
        lemma_wrote(s, 0, 1, 2);
        assert(s[0].writes[1].buf == Buf::Hidden);
    }
    lemma_wrote(s, 0, 0, 1);
    assert(s[0].writes[0].buf == Buf::Normed);
}

proof fn lemma_rope_flows(p: DecodeDims, k: DecodeKnobs, l: usize)
    ensures
        flows(rope_steps(p, k, l), set![Buf::Qkv]),
        wrote(rope_steps(p, k, l), rope_steps(p, k, l).len() as int, Buf::QkRope),
        wrote(rope_steps(p, k, l), rope_steps(p, k, l).len() as int, Buf::KCache(l)),
        wrote(rope_steps(p, k, l), rope_steps(p, k, l).len() as int, Buf::VCache(l)),
{
    let s = rope_steps(p, k, l);
    if k.fused_rope {
        lemma_wrote(s, 0, 0, 1);
        lemma_wrote(s, 0, 1, 1);
        lemma_wrote(s, 0, 2, 1);
        assert(s[0].writes[0].buf == Buf::QkRope);
        assert(s[0].writes[1].buf == Buf::KCache(l));
        assert(s[0].writes[2].buf == Buf::VCache(l));
    } else {
        lemma_wrote(s, 0, 0, 1);
        assert(s[0].writes[0].buf == Buf::QkNormFlat);
        lemma_wrote(s, 1, 0, 2);
        lemma_wrote(s, 1, 0, 3);
        assert(s[1].writes[0].buf == Buf::QkRope);
        lemma_wrote(s, 2, 0, 3);
        lemma_wrote(s, 2, 1, 3);
        assert(s[2].writes[0].buf == Buf::KCache(l));
        assert(s[2].writes[1].buf == Buf::VCache(l));
    }
}

proof fn lemma_attention_flows(p: DecodeDims, k: DecodeKnobs, l: usize)
    ensures
        flows(attention_steps(p, k, l), set![Buf::QkRope, Buf::KCache(l), Buf::VCache(l)]),
        wrote(attention_steps(p, k, l), attention_steps(p, k, l).len() as int, Buf::AttnOut),
{
    let s = attention_steps(p, k, l);
    if k.attention is Split {
        lemma_wrote(s, 0, 0, 1);
        lemma_wrote(s, 0, 1, 1);
        assert(s[0].writes[0].buf == Buf::FmhaAttPartial);
        assert(s[0].writes[1].buf == Buf::FmhaLsePartial);
        lemma_wrote(s, 1, 0, 2);
        assert(s[1].writes[0].buf == Buf::AttnOut);
    } else {
        lemma_wrote(s, 0, 0, 1);
        assert(s[0].writes[0].buf == Buf::AttnOut);
    }
}

proof fn lemma_ff_flows(p: DecodeDims, k: DecodeKnobs, l: usize)
    ensures
        flows(ff_steps(p, k, l), set![Buf::AttnOut, Buf::Hidden]),
        wrote(ff_steps(p, k, l), 5, Buf::HiddenAfterAttn),
        wrote(ff_steps(p, k, l), 5, Buf::FfDown),
{
    let s = ff_steps(p, k, l);
    lemma_wrote(s, 0, 0, 1);
    assert(s[0].writes[0].buf == Buf::AttnProj);
    lemma_wrote(s, 1, 0, 2);
    assert(s[1].writes[0].buf == Buf::FfNormed);
    lemma_wrote(s, 1, 1, 5);
    assert(s[1].writes[1].buf == Buf::HiddenAfterAttn);
    lemma_wrote(s, 2, 0, 3);
    assert(s[2].writes[0].buf == Buf::GateUp);
    lemma_wrote(s, 3, 0, 4);
    assert(s[3].writes[0].buf == Buf::Ff);
    lemma_wrote(s, 4, 0, 5);
    assert(s[4].writes[0].buf == Buf::FfDown);
}

proof fn lemma_layer_flows(p: DecodeDims, k: DecodeKnobs, l: usize)
    ensures
        flows(layer_steps(p, k, l), layer_entry(l as int)),
        wrote(layer_steps(p, k, l), layer_steps(p, k, l).len() as int, Buf::HiddenAfterAttn),
        wrote(layer_steps(p, k, l), layer_steps(p, k, l).len() as int, Buf::FfDown),
{
    let front = front_steps(p, k, l);
    let rope = rope_steps(p, k, l);
    let attention = attention_steps(p, k, l);
    let ff = ff_steps(p, k, l);
    let entry = layer_entry(l as int);
    lemma_front_flows(p, k, l);
    lemma_rope_flows(p, k, l);
    lemma_attention_flows(p, k, l);
    lemma_ff_flows(p, k, l);
    lemma_flows_on(front, rope, entry, set![Buf::Qkv]);
    let two = front + rope;
    lemma_wrote_back(front, rope, rope.len() as int, Buf::QkRope);
    lemma_wrote_back(front, rope, rope.len() as int, Buf::KCache(l));
    lemma_wrote_back(front, rope, rope.len() as int, Buf::VCache(l));
    lemma_wrote_back(front, rope, rope.len() as int, Buf::Hidden);
    lemma_flows_on(two, attention, entry, set![Buf::QkRope, Buf::KCache(l), Buf::VCache(l)]);
    let three = two + attention;
    lemma_wrote_back(two, attention, attention.len() as int, Buf::AttnOut);
    lemma_wrote_back(two, attention, attention.len() as int, Buf::Hidden);
    lemma_flows_on(three, ff, entry, set![Buf::AttnOut, Buf::Hidden]);
    lemma_wrote_back(three, ff, 5, Buf::HiddenAfterAttn);
    lemma_wrote_back(three, ff, 5, Buf::FfDown);
}

proof fn lemma_body_flows(p: DecodeDims, k: DecodeKnobs, n: int)
    requires
        0 <= n <= usize::MAX,
    ensures
        flows(body_steps(p, k, n), Set::empty()),
        forall|b: Buf| #[trigger]
            layer_entry(n).contains(b) ==> wrote(
                body_steps(p, k, n),
                body_steps(p, k, n).len() as int,
                b,
            ),
    decreases n,
{
    let s = body_steps(p, k, n);
    if n <= 0 {
        lemma_wrote(s, 0, 0, 1);
        assert(s[0].writes[0].buf == Buf::Hidden);
    } else {
        let front = body_steps(p, k, n - 1);
        let layer = layer_steps(p, k, (n - 1) as usize);
        lemma_body_flows(p, k, n - 1);
        lemma_layer_flows(p, k, (n - 1) as usize);
        lemma_flows_on(front, layer, Set::empty(), layer_entry(n - 1));
        lemma_wrote_back(front, layer, layer.len() as int, Buf::HiddenAfterAttn);
        lemma_wrote_back(front, layer, layer.len() as int, Buf::FfDown);
    }
}

proof fn lemma_tail_flows(p: DecodeDims, k: DecodeKnobs)
    ensures
        flows(tail_steps(p, k), set![Buf::HiddenAfterAttn, Buf::FfDown]),
        wrote(tail_steps(p, k), tail_steps(p, k).len() as int, Buf::TokenIds),
{
    let s = tail_steps(p, k);
    lemma_wrote(s, 0, 0, 1);
    assert(s[0].writes[0].buf == Buf::Normed);
    if k.fused_lm_head {
        lemma_wrote(s, 1, 0, 2);
        lemma_wrote(s, 1, 1, 2);
        assert(s[1].writes[0].buf == Buf::ArgmaxBlockMax);
        assert(s[1].writes[1].buf == Buf::ArgmaxBlockIdx);
        lemma_wrote(s, 2, 0, 3);
        assert(s[2].writes[0].buf == Buf::TokenIds);
    } else {
        lemma_wrote(s, 1, 0, 2);
        assert(s[1].writes[0].buf == Buf::Logits);
        lemma_wrote(s, 2, 0, 3);
        lemma_wrote(s, 2, 1, 3);
        assert(s[2].writes[0].buf == Buf::ArgmaxBlockMax);
        assert(s[2].writes[1].buf == Buf::ArgmaxBlockIdx);
        lemma_wrote(s, 3, 0, 4);
        assert(s[3].writes[0].buf == Buf::TokenIds);
    }
}

/// A replay depends on nothing that an earlier one left behind: every buffer that a step
/// reads is given or was written before in the same replay, and in each layer the cache is
/// updated before it is read. A replay leaves the next token where the next one reads it.
pub proof fn law_replay_is_closed(p: DecodeDims, k: DecodeKnobs)
    requires
        p.layers >= 1,
    ensures
        flows(decode_steps(p, k), Set::empty()),
        wrote(decode_steps(p, k), decode_steps(p, k).len() as int, Buf::TokenIds),
{
    let body = body_steps(p, k, p.layers as int);
    let tail = tail_steps(p, k);
    lemma_body_flows(p, k, p.layers as int);
    lemma_tail_flows(p, k);
    lemma_flows_on(body, tail, Set::empty(), layer_entry(p.layers as int));
    lemma_wrote_back(body, tail, tail.len() as int, Buf::TokenIds);
}

proof fn lemma_layer_sound(p: DecodeDims, k: DecodeKnobs, l: usize)
    requires
        sound_dims(p, k),
    ensures
        forall|i: int|
            0 <= i < layer_steps(p, k, l).len() ==> step_sound(
                p,
                k,
                #[trigger] layer_steps(p, k, l)[i],
            ),
{
    lemma_first_norm(p, k);
    lemma_next_norm(p, k, l);
    lemma_qkv(p, k, l);
    lemma_fused_rope(p, k, l);
    lemma_qk_norm(p, k, l);
    lemma_qk_rope(p, k);
    lemma_cache_update(p, k, l);
    match k.attention {
        DecodeAttention::Grouped => {
            lemma_grouped_attention(p, k, l);
        },
        DecodeAttention::Split => {
            lemma_split_attention(p, k, l);
            lemma_merge_attention(p, k);
        },
        DecodeAttention::Plain => {
            lemma_plain_attention(p, k, l);
        },
    }
    lemma_o_proj(p, k, l);
    lemma_ff_norm(p, k, l);
    lemma_gate_up(p, k, l);
    lemma_silu(p, k);
    lemma_down(p, k, l);
    let front = front_steps(p, k, l);
    let rope = rope_steps(p, k, l);
    let attention = attention_steps(p, k, l);
    let ff = ff_steps(p, k, l);
    let all = layer_steps(p, k, l);
    assert forall|i: int| 0 <= i < all.len() implies step_sound(p, k, #[trigger] all[i]) by {
        let at1 = front.len() as int;
        let at2 = at1 + rope.len();
        let at3 = at2 + attention.len();
        if i < at1 {
            assert(all[i] == front[i]);
        } else if i < at2 {
            assert(all[i] == rope[i - at1]);
        } else if i < at3 {
            assert(all[i] == attention[i - at2]);
        } else {
            assert(all[i] == ff[i - at3]);
        }
    }
}

proof fn lemma_body_sound(p: DecodeDims, k: DecodeKnobs, n: int)
    requires
        sound_dims(p, k),
        0 <= n,
    ensures
        forall|i: int|
            0 <= i < body_steps(p, k, n).len() ==> step_sound(
                p,
                k,
                #[trigger] body_steps(p, k, n)[i],
            ),
    decreases n,
{
    if n <= 0 {
        lemma_embed(p, k);
    } else {
        let front = body_steps(p, k, n - 1);
        let layer = layer_steps(p, k, (n - 1) as usize);
        lemma_body_sound(p, k, n - 1);
        lemma_layer_sound(p, k, (n - 1) as usize);
        let all = body_steps(p, k, n);
        assert forall|i: int| 0 <= i < all.len() implies step_sound(p, k, #[trigger] all[i]) by {
            if i < front.len() {
                assert(all[i] == front[i]);
            } else {
                assert(all[i] == layer[i - front.len()]);
            }
        }
    }
}

/// Every step of a token stays within its buffers, and writes no buffer that it reads.
pub proof fn law_steps_stay_within(p: DecodeDims, k: DecodeKnobs)
    requires
        sound_dims(p, k),
    ensures
        forall|i: int|
            0 <= i < decode_steps(p, k).len() ==> step_within(
                p,
                k,
                #[trigger] decode_steps(p, k)[i],
            ) && no_hazard(decode_steps(p, k)[i]),
{
    let body = body_steps(p, k, p.layers as int);
    let tail = tail_steps(p, k);
    let b = ceil_pow2(argmax_blocks_of(p, k) as nat) as usize;
    lemma_body_sound(p, k, p.layers as int);
    lemma_final_norm(p, k);
    lemma_fused_lm_head(p, k);
    lemma_lm_head(p, k);
    lemma_argmax(p, k);
    lemma_reduce(p, k, b);
    let all = decode_steps(p, k);
    assert forall|i: int| 0 <= i < all.len() implies step_within(p, k, #[trigger] all[i])
        && no_hazard(all[i]) by {
        if i < body.len() {
            assert(all[i] == body[i]);
            assert(step_sound(p, k, body[i]));
        } else {
            assert(all[i] == tail[i - body.len()]);
            assert(step_sound(p, k, tail[i - body.len()]));
        }
    }
}

} // verus!
