//! What the recorded steps of one token compute.
use crate::decode_laws::{lemma_products, sound_dims};
use crate::decode_plan::{
    all_heads, argmax_blocks_of, attention_steps, attn_width, body_steps, decode_steps, ff_steps,
    front_steps, gate_up_width, grouped_attention_step, kv_width, layer_steps, lemma_decode_sizes,
    qkv_width, rope_steps, share, tail_steps, v_at, ActionModel, Buf, DecodeAttention, DecodeDims,
    DecodeKnobs, LM_HEAD_ARGMAX_ROWS, Piece, Shape, StepModel,
};
use crate::forward::{fits, step_ops, step_result, StepDims};
use crate::graph::WeightRef;
use crate::kernel::{CallModel, Kernel};
use crate::knobs::{ceil_pow2, law_ceil_pow2};
use crate::model::{
    after_all, attended, embedded, gated, law_step_computes_the_model, logits_of, model_of, norm,
    part, product, rotated, row, sum, Known, ModelDims, Term,
};
use crate::pointwise::law_blocks_cover;
use vstd::prelude::*;

verus! {

/// What buffers hold, and how many elements of it.
pub type Contents = Map<Buf, (Term, int)>;

/// A stretch of what a buffer holds: all of it, one of two tensors that lie side by side, or
/// some columns.
pub open spec fn stretch(held: (Term, int), from: int, len: int) -> Term {
    if from == 0 && len == held.1 {
        held.0
    } else {
        match held.0 {
            Term::Joined { first, len: n, second } => if from == 0 && len == n {
                *first
            } else if from == n && len == held.1 - n {
                *second
            } else {
                Term::Nothing
            },
            x => part(x, from, len),
        }
    }
}

/// What a step reads.
pub open spec fn operand(c: Contents, x: Piece) -> Term {
    match x.buf {
        Buf::Weight(w) => if x.from == 0 {
            Term::Weight { w }
        } else {
            Term::Nothing
        },
        Buf::InvFreq => Term::Frequencies,
        Buf::Position => Term::Position,
        Buf::KvLength => Term::Length,
        b => stretch(c[b], x.from as int, x.shape.elems()),
    }
}

/// A step writes a buffer from its beginning on.
pub open spec fn put(c: Contents, x: Piece, t: Term) -> Contents {
    if x.from == 0 {
        c.insert(x.buf, (t, x.shape.elems()))
    } else {
        c.remove(x.buf)
    }
}

/// Two tensors side by side.
pub open spec fn joined(first: Term, len: int, second: Term) -> Term {
    Term::Joined { first: Box::new(first), len, second: Box::new(second) }
}

/// The layer whose caches two buffers are: keys, then values.
pub open spec fn caches_of(k: Buf, v: Buf) -> Option<usize> {
    match (k, v) {
        (Buf::KCache(a), Buf::VCache(b)) => if a == b {
            Some(a)
        } else {
            None
        },
        _ => None,
    }
}

/// The attention that a kernel with these reads computes.
pub open spec fn attention_of(c: Contents, reads: Seq<Piece>, share: int, last: Term) -> Term {
    match caches_of(reads[1].buf, reads[2].buf) {
        Some(l) => if operand(c, reads[3]) == last {
            attended(
                l,
                share,
                operand(c, reads[0]),
                operand(c, reads[1]),
                operand(c, reads[2]),
            )
        } else {
            Term::Nothing
        },
        None => Term::Nothing,
    }
}

/// Sizes and strides of a tensor without gaps, `n` dimensions from place `at` on; the stride
/// of the last dimension is 1 and left out.
pub open spec fn packed(ints: Seq<usize>, at: int, n: int) -> bool {
    forall|i: int|
        0 <= i < n - 1 ==> #[trigger] ints[at + n + i] == ints[at + i + 1] * (if i == n - 2 {
            1int
        } else {
            ints[at + n + i + 1] as int
        })
}

/// The numbers that a kernel gets are those of the tensors that it gets.
pub open spec fn well_called(k: CallModel, reads: Seq<Piece>, writes: Seq<Piece>) -> bool {
    match k.kernel {
        Kernel::RmsNorm => reads[1].shape == Shape::D1(k.generics[0]),
        Kernel::AddRmsNormDecodeRaw => {
            &&& reads[2].shape == Shape::D1(k.generics[0])
            &&& reads[0].shape.elems() == k.generics[0]
            &&& k.grid matches Some(g) && g.x == 1 && g.y == 1 && g.z == 1
        },
        Kernel::QkNorm => {
            &&& reads[0].shape == Shape::D2(k.ints[0], k.generics[0])
            &&& reads[2].shape == Shape::D1(k.generics[0])
            &&& reads[3].shape == Shape::D1(k.generics[0])
        },
        Kernel::QkRopeDynpos => {
            &&& reads[0].shape == Shape::D3(1, k.ints[0], k.generics[0])
            &&& k.generics[1] == k.generics[0] / 2
            &&& k.tile[2] == k.generics[1]
        },
        Kernel::KvCacheUpdateSeqDynpos => {
            &&& k.ints[0] == 1
            &&& writes[0].shape matches Shape::D3(_, rows, cols) && rows == k.generics[2] && cols
                == k.generics[0]
            &&& writes[1].shape == writes[0].shape
            &&& k.tile[1] == k.generics[2] && k.tile[2] == k.generics[1]
            &&& k.second_tile == k.tile
        },
        Kernel::QkNormRopeKvDecodeRaw => {
            &&& reads[0].shape.elems() == (k.ints[0] + 2 * k.ints[1]) * k.generics[0]
            &&& writes[1].shape == Shape::D3(k.ints[1], k.generics[2], k.generics[0])
            &&& writes[2].shape == writes[1].shape
            &&& k.generics[1] == k.generics[0] / 2
            &&& k.grid matches Some(g) && g.x == k.ints[0] + k.ints[1] && g.y == 2 && g.z == 1
        },
        Kernel::FmhaDecodeGqaSplit => {
            &&& reads[0].shape matches Shape::D3(heads, rows, cols) && rows == k.generics[0]
                && cols == k.generics[2] && writes[0].shape == Shape::D3(
                heads,
                (k.generics[3] * rows) as usize,
                cols,
            )
            &&& k.tile == seq![1usize, k.generics[0], k.generics[2]]
            &&& k.second_tile == seq![1usize, k.generics[0]]
        },
        Kernel::SplitkReduceMerge => {
            &&& writes[0].shape matches Shape::D3(heads, rows, cols) && rows == k.generics[0]
                && cols == k.generics[1] && reads[0].shape == Shape::D3(
                heads,
                k.generics[4],
                cols,
            ) && reads[1].shape == Shape::D2(heads, k.generics[4])
            &&& k.generics[4] == k.generics[3] * k.generics[0]
            &&& k.tile == seq![1usize, k.generics[0], k.generics[2]]
        },
        Kernel::FlashAttnCausalSeqDynpos => {
            &&& reads[0].shape matches Shape::D3(1, _, cols) && cols == k.generics[2]
            &&& writes[0].shape == reads[0].shape
        },
        Kernel::AttentionDecodeGrouped => {
            &&& packed(k.ints, 0, 4)
            &&& packed(k.ints, 7, 4)
            &&& packed(k.ints, 14, 4)
            &&& packed(k.ints, 21, 5)
            &&& packed(k.ints, 30, 4)
            &&& reads[0].shape == Shape::D3(k.ints[1], k.ints[2], k.ints[3])
            &&& reads[1].shape == Shape::D3(k.ints[8], k.ints[9], k.ints[10])
            &&& reads[2].shape == Shape::D3(k.ints[15], k.ints[16], k.ints[17])
            &&& k.grid matches Some(g) && g.x == 1 && g.y == k.ints[1] && g.z == k.generics[5]
        },
        Kernel::ArgmaxBlocks => {
            &&& reads[0].shape.elems() == k.ints[0]
            &&& k.ints[0] <= writes[0].shape.elems() * k.generics[0] < k.ints[0] + k.generics[0]
        },
        Kernel::LmHeadArgmaxBlocks => {
            &&& reads[0].shape == Shape::D2(k.ints[0], k.generics[0])
            &&& k.ints[0] <= writes[0].shape.elems() * LM_HEAD_ARGMAX_ROWS < k.ints[0]
                + LM_HEAD_ARGMAX_ROWS
        },
        Kernel::ArgmaxReduceBlocks => {
            &&& reads[0].shape.elems() == k.ints[0]
            &&& k.ints[0] <= k.generics[0]
        },
        _ => true,
    }
}

/// What a kernel writes, buffer by buffer.
pub open spec fn results(c: Contents, k: CallModel, reads: Seq<Piece>, writes: Seq<Piece>) -> Seq<
    Term,
> {
    match k.kernel {
        Kernel::RmsNorm => seq![
            norm(operand(c, reads[0]), operand(c, reads[1]), k.generics[0] as int),
        ],
        Kernel::AddRmsNormDecodeRaw => {
            let s = sum(operand(c, reads[0]), operand(c, reads[1]));
            seq![norm(s, operand(c, reads[2]), k.generics[0] as int), s]
        },
        Kernel::QkNorm => {
            let n = k.generics[0] as int;
            seq![
                joined(
                    norm(operand(c, reads[0]), operand(c, reads[2]), n),
                    k.ints[0] * n,
                    norm(operand(c, reads[1]), operand(c, reads[3]), n),
                ),
            ]
        },
        Kernel::QkRopeDynpos => if operand(c, reads[2]) == Term::Frequencies && operand(c, reads[3])
            == Term::Position {
            seq![
                joined(
                    rotated(operand(c, reads[0])),
                    k.ints[0] * k.generics[0],
                    rotated(operand(c, reads[1])),
                ),
            ]
        } else {
            seq![Term::Nothing]
        },
        Kernel::KvCacheUpdateSeqDynpos => if operand(c, reads[2]) == Term::Position && caches_of(
            writes[0].buf,
            writes[1].buf,
        ) is Some {
            seq![operand(c, reads[0]), operand(c, reads[1])]
        } else {
            seq![Term::Nothing, Term::Nothing]
        },
        Kernel::QkNormRopeKvDecodeRaw => {
            let n = k.generics[0] as int;
            let (q, kv) = (k.ints[0] * n, k.ints[1] * n);
            let qkv = operand(c, reads[0]);
            let keys = rotated(norm(part(qkv, q, kv), operand(c, reads[2]), n));
            if operand(c, reads[3]) == Term::Frequencies && operand(c, reads[4]) == Term::Position
                && caches_of(writes[1].buf, writes[2].buf) is Some {
                seq![
                    joined(
                        rotated(norm(part(qkv, 0, q), operand(c, reads[1]), n)),
                        q,
                        keys,
                    ),
                    keys,
                    part(qkv, q + kv, kv),
                ]
            } else {
                seq![Term::Nothing, Term::Nothing, Term::Nothing]
            }
        },
        Kernel::FmhaDecodeGqaSplit => {
            let a = attention_of(c, reads, k.generics[0] as int, Term::Position);
            let splits = k.generics[3] as int;
            seq![
                Term::Partial { of: Box::new(a), splits },
                Term::PartialWeight { of: Box::new(a), splits },
            ]
        },
        Kernel::SplitkReduceMerge => match (operand(c, reads[0]), operand(c, reads[1])) {
            (
                Term::Partial { of: a, splits: n },
                Term::PartialWeight { of: b, splits: w },
            ) => if a == b && n == w && n == k.generics[3] {
                seq![*a]
            } else {
                seq![Term::Nothing]
            },
            _ => seq![Term::Nothing],
        },
        Kernel::FlashAttnCausalSeqDynpos => seq![
            attention_of(c, reads, k.ints[0] as int, Term::Position),
        ],
        Kernel::AttentionDecodeGrouped => seq![
            attention_of(c, reads, k.ints[2] as int, Term::Length),
            Term::Nothing,
        ],
        Kernel::SiluMul2d => seq![gated(operand(c, reads[0]), operand(c, reads[1]))],
        Kernel::ArgmaxBlocks => {
            let x = operand(c, reads[0]);
            let block = k.generics[0] as int;
            seq![
                Term::BlockMax { x: Box::new(x), block },
                Term::BlockPlace { x: Box::new(x), block },
            ]
        },
        Kernel::LmHeadArgmaxBlocks => {
            let x = product(operand(c, reads[0]), operand(c, reads[1]));
            let block = LM_HEAD_ARGMAX_ROWS as int;
            seq![
                Term::BlockMax { x: Box::new(x), block },
                Term::BlockPlace { x: Box::new(x), block },
            ]
        },
        Kernel::ArgmaxReduceBlocks => match (operand(c, reads[0]), operand(c, reads[1])) {
            (Term::BlockMax { x: a, block: n }, Term::BlockPlace { x: b, block: w }) => if a == b
                && n == w {
                seq![Term::Greatest { x: a }]
            } else {
                seq![Term::Nothing]
            },
            _ => seq![Term::Nothing],
        },
        _ => Seq::empty(),
    }
}

/// What buffers hold after a step.
pub open spec fn after_step(c: Contents, s: StepModel) -> Contents {
    let out = match s.action {
        ActionModel::Embed => seq![embedded(operand(c, s.reads[0]))],
        ActionModel::Gemv(w) => seq![product(Term::Weight { w }, operand(c, s.reads[0]))],
        ActionModel::Call(k) => if well_called(k, s.reads, s.writes) {
            results(c, k, s.reads, s.writes)
        } else {
            Seq::empty()
        },
    };
    let one = if s.writes.len() > 0 {
        put(c, s.writes[0], out[0])
    } else {
        c
    };
    let two = if s.writes.len() > 1 {
        put(one, s.writes[1], out[1])
    } else {
        one
    };
    if s.writes.len() > 2 {
        put(two, s.writes[2], out[2])
    } else {
        two
    }
}

/// What buffers hold after the first `n` steps.
pub open spec fn after_steps(c: Contents, steps: Seq<StepModel>, n: int) -> Contents
    decreases n,
{
    if n <= 0 {
        c
    } else {
        after_step(after_steps(c, steps, n - 1), steps[n - 1])
    }
}

/// What buffers hold after all steps.
pub open spec fn replayed(c: Contents, steps: Seq<StepModel>) -> Contents {
    after_steps(c, steps, steps.len() as int)
}

proof fn lemma_steps_front(c: Contents, a: Seq<StepModel>, b: Seq<StepModel>, n: int)
    requires
        0 <= n <= a.len(),
    ensures
        after_steps(c, a + b, n) == after_steps(c, a, n),
    decreases n,
{
    if n > 0 {
        lemma_steps_front(c, a, b, n - 1);
        assert((a + b)[n - 1] == a[n - 1]);
    }
}

proof fn lemma_steps_back(c: Contents, a: Seq<StepModel>, b: Seq<StepModel>, n: int)
    requires
        0 <= n <= b.len(),
    ensures
        after_steps(c, a + b, a.len() + n) == after_steps(replayed(c, a), b, n),
    decreases n,
{
    if n > 0 {
        lemma_steps_back(c, a, b, n - 1);
        assert((a + b)[a.len() + n - 1] == b[n - 1]);
    } else {
        lemma_steps_front(c, a, b, a.len() as int);
    }
}

proof fn lemma_steps_join(c: Contents, a: Seq<StepModel>, b: Seq<StepModel>)
    ensures
        replayed(c, a + b) == replayed(replayed(c, a), b),
{
    lemma_steps_back(c, a, b, b.len() as int);
}

/// The model whose tokens the steps compute.
pub open spec fn model_in(p: DecodeDims) -> ModelDims {
    ModelDims {
        hidden: p.hidden as int,
        heads: p.heads as int,
        kv_heads: p.kv_heads as int,
        head_dim: p.head_dim as int,
        inter: p.inter as int,
    }
}

/// The heads divide evenly, nothing is empty, and the kernel that is output head and search
/// in one works in its own blocks.
pub open spec fn real_dims(p: DecodeDims, k: DecodeKnobs) -> bool {
    &&& sound_dims(p, k)
    &&& k.fused_lm_head ==> k.argmax_block == LM_HEAD_ARGMAX_ROWS
    &&& p.head_dim >= 1
    &&& p.inter >= 1
    &&& p.vocab >= 1
}

/// What the buffers hold before layer `n`: the embedding, or the two summands of the hidden
/// state.
pub open spec fn at_layer(p: DecodeDims, n: int, c: Contents) -> bool {
    let m = model_in(p);
    if n == 0 {
        c[Buf::Hidden] == (embedded(Term::Tokens), p.hidden as int)
    } else {
        &&& c[Buf::HiddenAfterAttn].1 == p.hidden
        &&& c[Buf::FfDown].1 == p.hidden
        &&& sum(c[Buf::HiddenAfterAttn].0, c[Buf::FfDown].0) == m.hidden_after(n)
    }
}

/// Whether a buffer is a cache.
pub open spec fn is_cache(b: Buf) -> bool {
    b is KCache || b is VCache
}

/// The caches are as they were, but for layer `l`.
pub open spec fn caches_stay(a: Contents, b: Contents, l: Option<usize>) -> bool {
    forall|x: Buf|
        is_cache(x) && !(l matches Some(n) && (x == Buf::KCache(n) || x == Buf::VCache(n))) ==> (
        #[trigger] b[x]) == a[x]
}

proof fn lemma_width(p: DecodeDims, k: DecodeKnobs)
    requires
        real_dims(p, k),
    ensures
        attn_width(p) == p.heads * p.head_dim,
        kv_width(p) == p.kv_heads * p.head_dim,
        attn_width(p) >= 1,
        kv_width(p) >= 1,
        qkv_width(p) == attn_width(p) + 2 * kv_width(p),
        v_at(p) == attn_width(p) + kv_width(p),
        gate_up_width(p) == 2 * p.inter,
        Shape::D2(1, p.hidden).elems() == p.hidden,
        Shape::D2(1, p.inter).elems() == p.inter,
        Shape::D2(1, gate_up_width(p)).elems() == 2 * p.inter,
        Shape::D2(1, qkv_width(p)).elems() == attn_width(p) + 2 * kv_width(p),
        Shape::D3(1, p.heads, p.head_dim).elems() == attn_width(p),
        Shape::D3(1, p.kv_heads, p.head_dim).elems() == kv_width(p),
        Shape::D3(1, all_heads(p), p.head_dim).elems() == attn_width(p) + kv_width(p),
        Shape::D2(all_heads(p), p.head_dim).elems() == attn_width(p) + kv_width(p),
        Shape::D2(p.heads, p.head_dim).elems() == attn_width(p),
        Shape::D2(p.kv_heads, p.head_dim).elems() == kv_width(p),
        Shape::D3(p.kv_heads, share(p), p.head_dim).elems() == attn_width(p),
{
    lemma_decode_sizes(p, k);
    lemma_products(p, k);
    assert(p.heads * p.head_dim >= 1) by (nonlinear_arith)
        requires
            p.heads >= 1,
            p.head_dim >= 1,
    ;
    assert(p.kv_heads * p.head_dim >= 1) by (nonlinear_arith)
        requires
            p.kv_heads >= 1,
            p.head_dim >= 1,
    ;
}

proof fn lemma_fused_call(p: DecodeDims, k: DecodeKnobs)
    requires
        real_dims(p, k),
    ensures
        (p.heads + 2 * p.kv_heads) * p.head_dim == attn_width(p) + 2 * kv_width(p),
{
    lemma_width(p, k);
    assert((p.heads + 2 * p.kv_heads) * p.head_dim == p.heads * p.head_dim + 2 * (p.kv_heads
        * p.head_dim)) by (nonlinear_arith);
}

proof fn lemma_grouped_call(p: DecodeDims, k: DecodeKnobs, l: usize)
    requires
        real_dims(p, k),
        k.attention is Grouped,
    ensures
        ({
            let s = grouped_attention_step(p, k, l);
            s.action matches ActionModel::Call(c) && well_called(c, s.reads, s.writes)
        }),
{
    lemma_decode_sizes(p, k);
    lemma_products(p, k);
    let s = grouped_attention_step(p, k, l);
    let c = s.action->Call_0;
    assert(c.ints.len() == 37);
    assert(packed(c.ints, 0, 4));
    assert(packed(c.ints, 7, 4));
    assert(packed(c.ints, 14, 4));
    assert(packed(c.ints, 21, 5));
    assert(packed(c.ints, 30, 4));
}

proof fn lemma_tail_calls(p: DecodeDims, k: DecodeKnobs)
    requires
        real_dims(p, k),
    ensures
        ({
            let n = argmax_blocks_of(p, k);
            let b = ceil_pow2(n as nat);
            &&& p.vocab <= n * k.argmax_block < p.vocab + k.argmax_block
            &&& n <= b <= usize::MAX
        }),
{
    lemma_decode_sizes(p, k);
    law_blocks_cover(p.vocab as int, k.argmax_block as int);
    let n = argmax_blocks_of(p, k);
    law_ceil_pow2(n as nat);
    assert((n - 1) * k.argmax_block == n * k.argmax_block - k.argmax_block) by (nonlinear_arith);
}

proof fn lemma_front(p: DecodeDims, k: DecodeKnobs, l: usize, c: Contents)
    requires
        real_dims(p, k),
        at_layer(p, l as int, c),
    ensures
        ({
            let m = model_in(p);
            let h = m.hidden_after(l as int);
            let r = replayed(c, front_steps(p, k, l));
            &&& r[Buf::Hidden] == (h, p.hidden as int)
            &&& r[Buf::Qkv] == (m.qkv(l, h), qkv_width(p) as int)
            &&& caches_stay(c, r, None)
        }),
{
    lemma_width(p, k);
    reveal_with_fuel(after_steps, 3);
    assert(front_steps(p, k, l).len() == 2);
}

proof fn lemma_rope(p: DecodeDims, k: DecodeKnobs, l: usize, h: Term, c: Contents)
    requires
        real_dims(p, k),
        c[Buf::Hidden] == (h, p.hidden as int),
        c[Buf::Qkv] == (model_in(p).qkv(l, h), qkv_width(p) as int),
    ensures
        ({
            let m = model_in(p);
            let r = replayed(c, rope_steps(p, k, l));
            &&& r[Buf::Hidden] == c[Buf::Hidden]
            &&& r[Buf::QkRope] == (
                joined(m.queries(l, h), m.heads * m.head_dim, m.keys(l, h)),
                attn_width(p) + kv_width(p),
            )
            &&& r[Buf::KCache(l)].0 == m.keys(l, h)
            &&& r[Buf::VCache(l)].0 == m.values(l, h)
            &&& r[Buf::KCache(l)].1 == Shape::D3(p.kv_heads, p.max_seq_len, p.head_dim).elems()
            &&& r[Buf::VCache(l)].1 == Shape::D3(p.kv_heads, p.max_seq_len, p.head_dim).elems()
            &&& caches_stay(c, r, Some(l))
        }),
{
    lemma_width(p, k);
    lemma_fused_call(p, k);
    reveal_with_fuel(after_steps, 4);
    if k.fused_rope {
        assert(rope_steps(p, k, l).len() == 1);
    } else {
        assert(rope_steps(p, k, l).len() == 3);
    }
}

proof fn lemma_attention(p: DecodeDims, k: DecodeKnobs, l: usize, h: Term, c: Contents)
    requires
        real_dims(p, k),
        c[Buf::Hidden] == (h, p.hidden as int),
        c[Buf::QkRope] == (
            joined(
                model_in(p).queries(l, h),
                p.heads * p.head_dim,
                model_in(p).keys(l, h),
            ),
            attn_width(p) + kv_width(p),
        ),
        c[Buf::KCache(l)] == (
            model_in(p).keys(l, h),
            Shape::D3(p.kv_heads, p.max_seq_len, p.head_dim).elems(),
        ),
        c[Buf::VCache(l)] == (
            model_in(p).values(l, h),
            Shape::D3(p.kv_heads, p.max_seq_len, p.head_dim).elems(),
        ),
    ensures
        ({
            let r = replayed(c, attention_steps(p, k, l));
            &&& r[Buf::Hidden] == c[Buf::Hidden]
            &&& r[Buf::AttnOut] == (model_in(p).attention(l, h), attn_width(p) as int)
            &&& caches_stay(c, r, None)
        }),
{
    lemma_width(p, k);
    lemma_products(p, k);
    lemma_decode_sizes(p, k);
    reveal_with_fuel(after_steps, 3);
    let steps = attention_steps(p, k, l);
    match k.attention {
        DecodeAttention::Grouped => {
            lemma_grouped_call(p, k, l);
            assert(steps.len() == 1);
            let s = steps[0];
            let call = s.action->Call_0;
            assert(results(c, call, s.reads, s.writes)[0] == model_in(p).attention(l, h));
        },
        DecodeAttention::Split => {
            assert(steps.len() == 2);
            let s = steps[0];
            let call = s.action->Call_0;
            assert(well_called(call, s.reads, s.writes));
            let t = steps[1];
            assert(well_called(t.action->Call_0, t.reads, t.writes));
        },
        DecodeAttention::Plain => {
            assert(steps.len() == 1);
        },
    }
}

proof fn lemma_ff(p: DecodeDims, k: DecodeKnobs, l: usize, h: Term, c: Contents)
    requires
        real_dims(p, k),
        c[Buf::Hidden] == (h, p.hidden as int),
        c[Buf::AttnOut] == (model_in(p).attention(l, h), attn_width(p) as int),
    ensures
        ({
            let m = model_in(p);
            let r = replayed(c, ff_steps(p, k, l));
            &&& r[Buf::HiddenAfterAttn] == (m.middle(l, h), p.hidden as int)
            &&& r[Buf::FfDown] == (m.feed_forward(l, m.middle(l, h)), p.hidden as int)
            &&& caches_stay(c, r, None)
        }),
{
    lemma_width(p, k);
    reveal_with_fuel(after_steps, 6);
    assert(ff_steps(p, k, l).len() == 5);
}

proof fn lemma_layer(p: DecodeDims, k: DecodeKnobs, l: usize, c: Contents)
    requires
        real_dims(p, k),
        at_layer(p, l as int, c),
    ensures
        ({
            let m = model_in(p);
            let h = m.hidden_after(l as int);
            let r = replayed(c, layer_steps(p, k, l));
            &&& at_layer(p, l + 1, r)
            &&& r[Buf::KCache(l)].0 == m.keys(l, h)
            &&& r[Buf::VCache(l)].0 == m.values(l, h)
            &&& caches_stay(c, r, Some(l))
        }),
{
    let m = model_in(p);
    let h = m.hidden_after(l as int);
    let s1 = front_steps(p, k, l);
    let s2 = rope_steps(p, k, l);
    let s3 = attention_steps(p, k, l);
    let s4 = ff_steps(p, k, l);
    let c1 = replayed(c, s1);
    let c2 = replayed(c1, s2);
    let c3 = replayed(c2, s3);
    let c4 = replayed(c3, s4);
    lemma_front(p, k, l, c);
    lemma_rope(p, k, l, h, c1);
    lemma_attention(p, k, l, h, c2);
    lemma_ff(p, k, l, h, c3);
    lemma_steps_join(c, s1, s2);
    lemma_steps_join(c, s1 + s2, s3);
    lemma_steps_join(c, s1 + s2 + s3, s4);
    assert(replayed(c, layer_steps(p, k, l)) == c4);
    assert(m.hidden_after(l + 1) == m.layer(l, h));
    assert(is_cache(Buf::KCache(l)) && is_cache(Buf::VCache(l)));
    assert(c4[Buf::KCache(l)] == c3[Buf::KCache(l)] && c3[Buf::KCache(l)] == c2[Buf::KCache(l)]);
    assert(c4[Buf::VCache(l)] == c3[Buf::VCache(l)] && c3[Buf::VCache(l)] == c2[Buf::VCache(l)]);
}

/// The first `n` layers have their keys and values in the caches.
pub open spec fn filled(p: DecodeDims, n: int, c: Contents) -> bool {
    let m = model_in(p);
    &&& forall|l: int|
        0 <= l < n ==> (#[trigger] c[Buf::KCache(l as usize)]).0 == m.keys(
            l as usize,
            m.hidden_after(l),
        )
    &&& forall|l: int|
        0 <= l < n ==> (#[trigger] c[Buf::VCache(l as usize)]).0 == m.values(
            l as usize,
            m.hidden_after(l),
        )
}

proof fn lemma_body(p: DecodeDims, k: DecodeKnobs, n: int, c: Contents)
    requires
        real_dims(p, k),
        0 <= n <= p.layers,
        c[Buf::TokenIds] == (Term::Tokens, 1int),
    ensures
        at_layer(p, n, replayed(c, body_steps(p, k, n))),
        filled(p, n, replayed(c, body_steps(p, k, n))),
    decreases n,
{
    lemma_width(p, k);
    if n <= 0 {
        reveal_with_fuel(after_steps, 2);
        assert(body_steps(p, k, n).len() == 1);
    } else {
        let l = (n - 1) as usize;
        let before = replayed(c, body_steps(p, k, n - 1));
        lemma_body(p, k, n - 1, c);
        lemma_layer(p, k, l, before);
        lemma_steps_join(c, body_steps(p, k, n - 1), layer_steps(p, k, l));
        let r = replayed(c, body_steps(p, k, n));
        let m = model_in(p);
        assert forall|i: int| 0 <= i < n implies (#[trigger] r[Buf::KCache(i as usize)]).0
            == m.keys(i as usize, m.hidden_after(i)) by {
            if i < n - 1 {
                assert(is_cache(Buf::KCache(i as usize)));
                assert(r[Buf::KCache(i as usize)] == before[Buf::KCache(i as usize)]);
            }
        }
        assert forall|i: int| 0 <= i < n implies (#[trigger] r[Buf::VCache(i as usize)]).0
            == m.values(i as usize, m.hidden_after(i)) by {
            if i < n - 1 {
                assert(is_cache(Buf::VCache(i as usize)));
                assert(r[Buf::VCache(i as usize)] == before[Buf::VCache(i as usize)]);
            }
        }
    }
}

proof fn lemma_tail(p: DecodeDims, k: DecodeKnobs, h: Term, c: Contents)
    requires
        real_dims(p, k),
        c[Buf::HiddenAfterAttn].1 == p.hidden,
        c[Buf::FfDown].1 == p.hidden,
        sum(c[Buf::HiddenAfterAttn].0, c[Buf::FfDown].0) == h,
    ensures
        ({
            let x = norm(h, Term::Weight { w: WeightRef::Norm }, p.hidden as int);
            let r = replayed(c, tail_steps(p, k));
            &&& r[Buf::TokenIds] == (Term::Greatest { x: Box::new(logits_of(x)) }, 1int)
            &&& !k.fused_lm_head ==> r[Buf::Logits] == (logits_of(x), p.vocab as int)
            &&& caches_stay(c, r, None)
        }),
{
    lemma_width(p, k);
    lemma_tail_calls(p, k);
    reveal_with_fuel(after_steps, 5);
    if k.fused_lm_head {
        assert(tail_steps(p, k).len() == 3);
    } else {
        assert(tail_steps(p, k).len() == 4);
    }
}

/// The recorded steps compute the token that the model computes: out of the token that lies
/// on the device they make the place of the model's greatest logit, which lies where the
/// next replay reads its token. Each layer keeps the model's keys and values, and where
/// logits are kept they are the model's. What buffers held before does not matter.
pub proof fn law_replay_computes_the_model(p: DecodeDims, k: DecodeKnobs, c: Contents)
    requires
        real_dims(p, k),
        p.layers >= 1,
        c[Buf::TokenIds] == (Term::Tokens, 1int),
    ensures
        ({
            let logits = logits_of(model_in(p).last_norm(p.layers as int));
            let r = replayed(c, decode_steps(p, k));
            &&& r[Buf::TokenIds] == (Term::Greatest { x: Box::new(logits) }, 1int)
            &&& !k.fused_lm_head ==> r[Buf::Logits] == (logits, p.vocab as int)
            &&& filled(p, p.layers as int, r)
        }),
{
    let n = p.layers as int;
    let body = body_steps(p, k, n);
    let tail = tail_steps(p, k);
    let m = model_in(p);
    let before = replayed(c, body);
    lemma_body(p, k, n, c);
    lemma_tail(p, k, m.hidden_after(n), before);
    lemma_steps_join(c, body, tail);
    let r = replayed(c, decode_steps(p, k));
    assert forall|i: int| 0 <= i < n implies (#[trigger] r[Buf::KCache(i as usize)]).0 == m.keys(
        i as usize,
        m.hidden_after(i),
    ) by {
        assert(is_cache(Buf::KCache(i as usize)));
        assert(r[Buf::KCache(i as usize)] == before[Buf::KCache(i as usize)]);
    }
    assert forall|i: int| 0 <= i < n implies (#[trigger] r[Buf::VCache(i as usize)]).0 == m.values(
        i as usize,
        m.hidden_after(i),
    ) by {
        assert(is_cache(Buf::VCache(i as usize)));
        assert(r[Buf::VCache(i as usize)] == before[Buf::VCache(i as usize)]);
    }
}

/// A replay computes what a step of one token computes: the same logits, and the same keys
/// and values in every layer.
pub proof fn law_replay_computes_a_step(
    d: DecodeDims,
    k: DecodeKnobs,
    c: Contents,
    p: StepDims,
    st: Known,
)
    requires
        real_dims(d, k),
        d.layers >= 1,
        c[Buf::TokenIds] == (Term::Tokens, 1int),
        fits(p),
        p.seqlen == 1,
        p.hidden == d.hidden && p.heads == d.heads && p.kv_heads == d.kv_heads,
        p.head_dim == d.head_dim && p.inter == d.inter && p.layers == d.layers,
    ensures
        ({
            let r = replayed(c, decode_steps(d, k));
            let s = after_all(model_of(p), st, step_ops(p));
            &&& exists|x: Term| #[trigger]
                logits_of(row(x, 0)) == s.values[step_result(p)] && r[Buf::TokenIds].0 == (
                Term::Greatest { x: Box::new(logits_of(x)) })
            &&& forall|l: int|
                0 <= l < p.layers ==> (#[trigger] r[Buf::KCache(l as usize)]).0
                    == s.keys[l as usize]
            &&& forall|l: int|
                0 <= l < p.layers ==> (#[trigger] r[Buf::VCache(l as usize)]).0
                    == s.cached[l as usize]
        }),
{
    law_replay_computes_the_model(d, k, c);
    law_step_computes_the_model(p, st);
    assert(model_in(d) == model_of(p));
    let x = model_in(d).last_norm(d.layers as int);
    let s = after_all(model_of(p), st, step_ops(p));
    assert(logits_of(row(x, 0)) == s.values[step_result(p)]);
    assert forall|l: int| 0 <= l < p.layers implies (#[trigger] replayed(
        c,
        decode_steps(d, k),
    )[Buf::KCache(l as usize)]).0 == s.keys[l as usize] by {
        assert(s.keys[l as usize] == model_of(p).keys(l as usize, model_of(p).hidden_after(l)));
    }
    assert forall|l: int| 0 <= l < p.layers implies (#[trigger] replayed(
        c,
        decode_steps(d, k),
    )[Buf::VCache(l as usize)]).0 == s.cached[l as usize] by {
        assert(s.cached[l as usize] == model_of(p).values(l as usize, model_of(p).hidden_after(l)));
    }
}

} // verus!
