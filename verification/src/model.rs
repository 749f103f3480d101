//! What a Qwen3 model computes, and what the operations of a step compute, both as terms.
//!
//! A term stands for the elements of a tensor by the way they come about. Two tensors with
//! the same term hold the same numbers.
use crate::caches::is_step;
use crate::config::Qwen3Config;
use crate::forward::{
    attention_at, attention_ops, body_ops, dims_of, ff_at, ff_ops, fits, head_ops, heads_at,
    heads_ops, layer_at, layer_ops, layer_size, lemma_fits, qkv_ops, rope_at, rope_ops, step_ops,
    step_result, vid, StepDims,
};
use crate::graph::{LayerWeightSlot, Op, OpModel, TensorRef, ValueId, WeightRef};
use crate::step_graph::StepGraph;
use crate::warmup::warm_dims;
use vstd::prelude::*;

verus! {

/// The elements of a tensor, by the way they come about.
pub enum Term {
    /// The tokens of the step.
    Tokens,
    /// The table of the rotary embedding.
    Frequencies,
    /// The position of the first token.
    Position,
    /// The count of positions up to the last token.
    Length,
    /// A weight of the model.
    Weight { w: WeightRef },
    /// The rows of the embedding for tokens.
    Embedded { tokens: Box<Term> },
    /// The root-mean-square norm of every `n` elements, times a weight.
    Norm { x: Box<Term>, weight: Box<Term>, n: int },
    /// Every row times a matrix.
    Product { matrix: Box<Term>, x: Box<Term> },
    /// `len` columns of every row, from `from` on.
    Part { x: Box<Term>, from: int, len: int },
    /// `first`, which has `len` elements, and then `second`.
    Joined { first: Box<Term>, len: int, second: Box<Term> },
    /// The rotary embedding of every head.
    Rotated { x: Box<Term> },
    /// A sum of two tensors.
    Sum { a: Box<Term>, b: Box<Term> },
    /// `silu(gate) * up`.
    Gated { gate: Box<Term>, up: Box<Term> },
    /// The attention of queries over the cache of a layer, after these keys and values went
    /// to it. `share` query heads share the keys of one head.
    Attended { layer: usize, share: int, q: Box<Term>, k: Box<Term>, v: Box<Term> },
    /// What parts of the cache give of an attention.
    Partial { of: Box<Term>, splits: int },
    /// How much each part of the cache counts in an attention.
    PartialWeight { of: Box<Term>, splits: int },
    /// One row.
    Row { x: Box<Term>, row: int },
    /// The greatest element of every block.
    BlockMax { x: Box<Term>, block: int },
    /// The place of the greatest element of every block.
    BlockPlace { x: Box<Term>, block: int },
    /// The place of the greatest element.
    Greatest { x: Box<Term> },
    /// Something else.
    Nothing,
}

/// A norm.
pub open spec fn norm(x: Term, weight: Term, n: int) -> Term {
    Term::Norm { x: Box::new(x), weight: Box::new(weight), n }
}

/// A product with a matrix.
pub open spec fn product(matrix: Term, x: Term) -> Term {
    Term::Product { matrix: Box::new(matrix), x: Box::new(x) }
}

/// Some columns.
pub open spec fn part(x: Term, from: int, len: int) -> Term {
    Term::Part { x: Box::new(x), from, len }
}

/// A rotary embedding.
pub open spec fn rotated(x: Term) -> Term {
    Term::Rotated { x: Box::new(x) }
}

/// A sum.
pub open spec fn sum(a: Term, b: Term) -> Term {
    Term::Sum { a: Box::new(a), b: Box::new(b) }
}

/// A gated product.
pub open spec fn gated(gate: Term, up: Term) -> Term {
    Term::Gated { gate: Box::new(gate), up: Box::new(up) }
}

/// The attention of a layer.
pub open spec fn attended(layer: usize, share: int, q: Term, k: Term, v: Term) -> Term {
    Term::Attended { layer, share, q: Box::new(q), k: Box::new(k), v: Box::new(v) }
}

/// One row.
pub open spec fn row(x: Term, row: int) -> Term {
    Term::Row { x: Box::new(x), row }
}

/// The embedding of tokens.
pub open spec fn embedded(tokens: Term) -> Term {
    Term::Embedded { tokens: Box::new(tokens) }
}

/// A weight of layer `l`.
pub open spec fn weight(l: usize, slot: LayerWeightSlot) -> Term {
    Term::Weight { w: WeightRef::Layer { layer_idx: l, slot } }
}

/// The sizes of a model.
pub struct ModelDims {
    pub hidden: int,
    pub heads: int,
    pub kv_heads: int,
    pub head_dim: int,
    pub inter: int,
}

impl ModelDims {
    /// Queries, keys and values of layer `l`, side by side, for the hidden state `h`.
    pub open spec fn qkv(self, l: usize, h: Term) -> Term {
        product(
            weight(l, LayerWeightSlot::QkvProj),
            norm(h, weight(l, LayerWeightSlot::InputLayerNorm), self.hidden),
        )
    }

    /// The queries of layer `l`: normed by heads and rotated.
    pub open spec fn queries(self, l: usize, h: Term) -> Term {
        let q = part(self.qkv(l, h), 0, self.heads * self.head_dim);
        rotated(norm(q, weight(l, LayerWeightSlot::QNorm), self.head_dim))
    }

    /// The keys of layer `l`, behind the queries: normed by heads and rotated.
    pub open spec fn keys(self, l: usize, h: Term) -> Term {
        let k = part(
            self.qkv(l, h),
            self.heads * self.head_dim,
            self.kv_heads * self.head_dim,
        );
        rotated(norm(k, weight(l, LayerWeightSlot::KNorm), self.head_dim))
    }

    /// The values of layer `l`, behind the keys, as they are.
    pub open spec fn values(self, l: usize, h: Term) -> Term {
        part(
            self.qkv(l, h),
            self.heads * self.head_dim + self.kv_heads * self.head_dim,
            self.kv_heads * self.head_dim,
        )
    }

    /// The attention of layer `l`.
    pub open spec fn attention(self, l: usize, h: Term) -> Term {
        attended(
            l,
            self.heads / self.kv_heads,
            self.queries(l, h),
            self.keys(l, h),
            self.values(l, h),
        )
    }

    /// The hidden state in the middle of layer `l`: the attention is projected and added.
    pub open spec fn middle(self, l: usize, h: Term) -> Term {
        sum(h, product(weight(l, LayerWeightSlot::OProj), self.attention(l, h)))
    }

    /// Gate and up projection of layer `l`, side by side, for the state `m` in the middle.
    pub open spec fn gate_up(self, l: usize, m: Term) -> Term {
        product(
            weight(l, LayerWeightSlot::GateUpProj),
            norm(m, weight(l, LayerWeightSlot::PostAttentionLayerNorm), self.hidden),
        )
    }

    /// What the feed-forward part of layer `l` adds.
    pub open spec fn feed_forward(self, l: usize, m: Term) -> Term {
        let gu = self.gate_up(l, m);
        product(
            weight(l, LayerWeightSlot::DownProj),
            gated(part(gu, 0, self.inter), part(gu, self.inter, self.inter)),
        )
    }

    /// The hidden state after layer `l`.
    pub open spec fn layer(self, l: usize, h: Term) -> Term {
        sum(self.middle(l, h), self.feed_forward(l, self.middle(l, h)))
    }

    /// The hidden state after the first `n` layers.
    pub open spec fn hidden_after(self, n: int) -> Term
        decreases n,
    {
        if n <= 0 {
            embedded(Term::Tokens)
        } else {
            self.layer((n - 1) as usize, self.hidden_after(n - 1))
        }
    }

    /// The normed hidden state after all `n` layers.
    pub open spec fn last_norm(self, n: int) -> Term {
        norm(self.hidden_after(n), Term::Weight { w: WeightRef::Norm }, self.hidden)
    }
}

/// The logits for a normed hidden state.
pub open spec fn logits_of(x: Term) -> Term {
    product(Term::Weight { w: WeightRef::LmHead }, x)
}

/// What is known while a step runs: the values, and which keys and values went to the
/// cache of each layer.
#[verifier::ext_equal]
pub struct Known {
    pub values: Map<ValueId, Term>,
    pub keys: Map<usize, Term>,
    pub cached: Map<usize, Term>,
}

/// What a reference stands for.
pub open spec fn meant(st: Known, r: TensorRef) -> Term {
    match r {
        TensorRef::Value(v) => st.values[v],
        TensorRef::Weight(w) => Term::Weight { w },
    }
}

/// A value is known.
pub open spec fn known(st: Known, v: ValueId, t: Term) -> Known {
    Known { values: st.values.insert(v, t), ..st }
}

/// What is known after an operation of a model with these sizes.
pub open spec fn after_op(m: ModelDims, st: Known, op: OpModel) -> Known {
    match op {
        Op::EmbeddingBatch { out } => known(st, out, embedded(Term::Tokens)),
        Op::MatMul { matrix, rhs, out } => known(
            st,
            out,
            product(meant(st, matrix), meant(st, rhs)),
        ),
        Op::MatVec { matrix, vector, out } => known(
            st,
            out,
            product(meant(st, matrix), meant(st, vector)),
        ),
        Op::Add { lhs, rhs, out } => known(st, out, sum(meant(st, lhs), meant(st, rhs))),
        Op::SiluMul { gate, up, out } => known(st, out, gated(meant(st, gate), meant(st, up))),
        Op::RmsNorm { x, weight, n, out } => known(
            st,
            out,
            norm(meant(st, x), meant(st, weight), n as int),
        ),
        Op::Reshape { input, out, .. } => known(st, out, meant(st, input)),
        Op::Rope { x, out } => known(st, out, rotated(meant(st, x))),
        Op::KvCacheUpdate { layer_idx, new_k, new_v } => Known {
            keys: st.keys.insert(layer_idx, meant(st, new_k)),
            cached: st.cached.insert(layer_idx, meant(st, new_v)),
            ..st
        },
        Op::QkNormRopeKvPrefill { layer_idx, q, k, v, out } => {
            let norm_q = weight(layer_idx, LayerWeightSlot::QNorm);
            let norm_k = weight(layer_idx, LayerWeightSlot::KNorm);
            Known {
                values: st.values.insert(out, rotated(norm(meant(st, q), norm_q, m.head_dim))),
                keys: st.keys.insert(layer_idx, rotated(norm(meant(st, k), norm_k, m.head_dim))),
                cached: st.cached.insert(layer_idx, meant(st, v)),
            }
        },
        Op::Attention { layer_idx, q, out } => known(
            st,
            out,
            attended(
                layer_idx,
                m.heads / m.kv_heads,
                meant(st, q),
                st.keys[layer_idx],
                st.cached[layer_idx],
            ),
        ),
        Op::GatherRow { src, row_idx, out } => known(st, out, row(meant(st, src), row_idx as int)),
        Op::SliceCols { input, col_offset, out_cols, out } => known(
            st,
            out,
            part(meant(st, input), col_offset as int, out_cols as int),
        ),
        Op::MatMulSlice { matrix, row_offset, out_features, rhs, out } => known(
            st,
            out,
            part(
                product(meant(st, matrix), meant(st, rhs)),
                row_offset as int,
                out_features as int,
            ),
        ),
        Op::AddRmsNorm { residual, x, weight, n, out, residual_out } => {
            let s = sum(meant(st, residual), meant(st, x));
            known(known(st, residual_out, s), out, norm(s, meant(st, weight), n as int))
        },
    }
}

/// What is known after the first `n` operations.
pub open spec fn after_ops(m: ModelDims, st: Known, ops: Seq<OpModel>, n: int) -> Known
    decreases n,
{
    if n <= 0 {
        st
    } else {
        after_op(m, after_ops(m, st, ops, n - 1), ops[n - 1])
    }
}

/// What is known after all operations.
pub open spec fn after_all(m: ModelDims, st: Known, ops: Seq<OpModel>) -> Known {
    after_ops(m, st, ops, ops.len() as int)
}

/// The model that a step is of.
pub open spec fn model_of(p: StepDims) -> ModelDims {
    ModelDims {
        hidden: p.hidden as int,
        heads: p.heads as int,
        kv_heads: p.kv_heads as int,
        head_dim: p.head_dim as int,
        inter: p.inter as int,
    }
}

proof fn lemma_ops_front(m: ModelDims, st: Known, a: Seq<OpModel>, b: Seq<OpModel>, n: int)
    requires
        0 <= n <= a.len(),
    ensures
        after_ops(m, st, a + b, n) == after_ops(m, st, a, n),
    decreases n,
{
    if n > 0 {
        lemma_ops_front(m, st, a, b, n - 1);
        assert((a + b)[n - 1] == a[n - 1]);
    }
}

proof fn lemma_ops_back(m: ModelDims, st: Known, a: Seq<OpModel>, b: Seq<OpModel>, n: int)
    requires
        0 <= n <= b.len(),
    ensures
        after_ops(m, st, a + b, a.len() + n) == after_ops(m, after_all(m, st, a), b, n),
    decreases n,
{
    if n > 0 {
        lemma_ops_back(m, st, a, b, n - 1);
        assert((a + b)[a.len() + n - 1] == b[n - 1]);
    } else {
        lemma_ops_front(m, st, a, b, a.len() as int);
    }
}

proof fn lemma_ops_join(m: ModelDims, st: Known, a: Seq<OpModel>, b: Seq<OpModel>)
    ensures
        after_all(m, st, a + b) == after_all(m, after_all(m, st, a), b),
{
    lemma_ops_back(m, st, a, b, b.len() as int);
}

/// The values up to place `n` are as they were, and so are the caches.
pub open spec fn stays(a: Known, b: Known, n: int) -> bool {
    &&& forall|i: int| 0 <= i < n ==> a.values[vid(i)] == #[trigger] b.values[vid(i)]
    &&& a.keys == b.keys
    &&& a.cached == b.cached
}

proof fn lemma_qkv(p: StepDims, l: usize, b: int, st: Known)
    requires
        fits(p),
        1 <= b,
        b + 40 <= usize::MAX,
    ensures
        ({
            let m = model_of(p);
            let h = st.values[vid(b - 1)];
            let r = after_all(m, st, qkv_ops(p, l, b - 1, b));
            &&& stays(st, r, b)
            &&& r.values[vid(b + 1)] == part(m.qkv(l, h), 0, m.heads * m.head_dim)
            &&& r.values[vid(b + 2)] == part(
                m.qkv(l, h),
                m.heads * m.head_dim,
                m.kv_heads * m.head_dim,
            )
            &&& r.values[vid(b + 3)] == m.values(l, h)
        }),
{
    lemma_fits(p);
    reveal_with_fuel(after_ops, 6);
    let m = model_of(p);
    let ops = qkv_ops(p, l, b - 1, b);
    if p.decode() {
        assert(ops.len() == 5);
    } else {
        assert(ops.len() == 4);
    }
}

proof fn lemma_heads(p: StepDims, b: int, q: int, st: Known)
    requires
        0 <= q,
        q + 3 <= b,
        b + 40 <= usize::MAX,
    ensures
        ({
            let r = after_all(model_of(p), st, heads_ops(p, q, b));
            &&& stays(st, r, b)
            &&& r.values[vid(b)] == st.values[vid(q)]
            &&& r.values[vid(b + 1)] == st.values[vid(q + 1)]
            &&& r.values[vid(b + 2)] == st.values[vid(q + 2)]
        }),
{
    reveal_with_fuel(after_ops, 4);
    assert(heads_ops(p, q, b).len() == 3);
}

/// The values up to place `n` are as they were, and the caches of other layers.
pub open spec fn stays_but(a: Known, b: Known, n: int, l: usize) -> bool {
    &&& forall|i: int| 0 <= i < n ==> a.values[vid(i)] == #[trigger] b.values[vid(i)]
    &&& b.keys == a.keys.insert(l, b.keys[l])
    &&& b.cached == a.cached.insert(l, b.cached[l])
}

proof fn lemma_rope(p: StepDims, l: usize, h: int, b: int, st: Known)
    requires
        0 <= h,
        h + 3 <= b,
        b + 40 <= usize::MAX,
    ensures
        ({
            let m = model_of(p);
            let r = after_all(m, st, rope_ops(p, l, h, b));
            &&& stays_but(st, r, b, l)
            &&& r.values[vid(b)] == rotated(
                norm(st.values[vid(h)], weight(l, LayerWeightSlot::QNorm), m.head_dim),
            )
            &&& r.keys[l] == rotated(
                norm(st.values[vid(h + 1)], weight(l, LayerWeightSlot::KNorm), m.head_dim),
            )
            &&& r.cached[l] == st.values[vid(h + 2)]
        }),
{
    reveal_with_fuel(after_ops, 10);
    if p.fuses() {
        assert(rope_ops(p, l, h, b).len() == 1);
    } else {
        assert(rope_ops(p, l, h, b).len() == 9);
    }
}

proof fn lemma_attention(p: StepDims, l: usize, hidden: int, q: int, b: int, st: Known)
    requires
        0 <= hidden < b,
        0 <= q < b,
        b + 40 <= usize::MAX,
    ensures
        ({
            let m = model_of(p);
            let r = after_all(m, st, attention_ops(p, l, hidden, q, b));
            let a = attended(
                l,
                m.heads / m.kv_heads,
                st.values[vid(q)],
                st.keys[l],
                st.cached[l],
            );
            let s = sum(st.values[vid(hidden)], product(weight(l, LayerWeightSlot::OProj), a));
            &&& stays(st, r, b)
            &&& r.values[vid(b + 3)] == s
            &&& r.values[vid(b + 4)] == norm(
                s,
                weight(l, LayerWeightSlot::PostAttentionLayerNorm),
                m.hidden,
            )
        }),
{
    reveal_with_fuel(after_ops, 5);
    assert(attention_ops(p, l, hidden, q, b).len() == 4);
}

proof fn lemma_ff(p: StepDims, l: usize, s: int, b: int, st: Known)
    requires
        0 <= s,
        s + 2 <= b,
        b + 40 <= usize::MAX,
    ensures
        ({
            let m = model_of(p);
            let r = after_all(m, st, ff_ops(p, l, s, b));
            let gu = product(weight(l, LayerWeightSlot::GateUpProj), st.values[vid(s + 1)]);
            let f = gated(part(gu, 0, m.inter), part(gu, m.inter, m.inter));
            let last = b + if p.decode() {
                5int
            } else {
                4
            };
            &&& stays(st, r, b)
            &&& r.values[vid(last)] == sum(
                st.values[vid(s)],
                product(weight(l, LayerWeightSlot::DownProj), f),
            )
        }),
{
    reveal_with_fuel(after_ops, 7);
    if p.decode() {
        assert(ff_ops(p, l, s, b).len() == 6);
    } else {
        assert(ff_ops(p, l, s, b).len() == 5);
    }
}

proof fn lemma_layer(p: StepDims, l: usize, b: int, st: Known)
    requires
        fits(p),
        1 <= b,
        b + 80 <= usize::MAX,
    ensures
        ({
            let m = model_of(p);
            let h = st.values[vid(b - 1)];
            let r = after_all(m, st, layer_ops(p, l, b));
            &&& r.values[vid(b + layer_size(p) - 1)] == m.layer(l, h)
            &&& r.keys == st.keys.insert(l, m.keys(l, h))
            &&& r.cached == st.cached.insert(l, m.values(l, h))
        }),
{
    let m = model_of(p);
    let h = st.values[vid(b - 1)];
    let heads = heads_at(p, b);
    let rope = rope_at(p, b);
    let att = attention_at(p, b);
    let ff = ff_at(p, b);
    let o1 = qkv_ops(p, l, b - 1, b);
    let o2 = heads_ops(p, b + 1, heads);
    let o3 = rope_ops(p, l, heads, rope);
    let o4 = attention_ops(p, l, b - 1, rope, att);
    let o5 = ff_ops(p, l, att + 3, ff);
    let s1 = after_all(m, st, o1);
    let s2 = after_all(m, s1, o2);
    let s3 = after_all(m, s2, o3);
    let s4 = after_all(m, s3, o4);
    lemma_qkv(p, l, b, st);
    lemma_heads(p, heads, b + 1, s1);
    lemma_rope(p, l, heads, rope, s2);
    lemma_attention(p, l, b - 1, rope, att, s3);
    lemma_ff(p, l, att + 3, ff, s4);
    lemma_ops_join(m, st, o1, o2);
    lemma_ops_join(m, st, o1 + o2, o3);
    lemma_ops_join(m, st, o1 + o2 + o3, o4);
    lemma_ops_join(m, st, o1 + o2 + o3 + o4, o5);
    assert(s1.values[vid(b - 1)] == h);
    assert(s2.values[vid(b - 1)] == h);
    assert(s3.values[vid(b - 1)] == h);
}

proof fn lemma_body(p: StepDims, n: int, st: Known)
    requires
        fits(p),
        0 <= n <= p.layers,
    ensures
        ({
            let m = model_of(p);
            let r = after_all(m, st, body_ops(p, n));
            &&& r.values[vid(layer_at(p, n) - 1)] == m.hidden_after(n)
            &&& forall|l: int|
                0 <= l < n ==> #[trigger] r.keys[l as usize] == m.keys(
                    l as usize,
                    m.hidden_after(l),
                )
            &&& forall|l: int|
                0 <= l < n ==> #[trigger] r.cached[l as usize] == m.values(
                    l as usize,
                    m.hidden_after(l),
                )
        }),
    decreases n,
{
    let m = model_of(p);
    reveal_with_fuel(after_ops, 2);
    if n <= 0 {
        assert(body_ops(p, n).len() == 1);
        assert(layer_at(p, n) == 1) by (nonlinear_arith)
            requires
                n == 0,
                layer_at(p, n) == 1 + n * layer_size(p),
        ;
    } else {
        let b = layer_at(p, n - 1);
        lemma_body(p, n - 1, st);
        let before = after_all(m, st, body_ops(p, n - 1));
        lemma_ops_join(m, st, body_ops(p, n - 1), layer_ops(p, (n - 1) as usize, b));
        assert(layer_at(p, n) == b + layer_size(p) && 1 <= b <= 1 + 4096 * 27) by (nonlinear_arith)
            requires
                b == 1 + (n - 1) * layer_size(p),
                layer_at(p, n) == 1 + n * layer_size(p),
                1 <= n <= 4096,
                0 <= layer_size(p) <= 27,
        ;
        lemma_layer(p, (n - 1) as usize, b, before);
    }
}

/// A step computes what the model computes: its result is the product of the output head
/// with the normed hidden state of the last token, and each layer keeps the keys and values
/// that the model has there. It does not matter what was known before.
pub proof fn law_step_computes_the_model(p: StepDims, st: Known)
    requires
        fits(p),
    ensures
        ({
            let m = model_of(p);
            let r = after_all(m, st, step_ops(p));
            &&& r.values[step_result(p)] == logits_of(
                row(m.last_norm(p.layers as int), p.seqlen - 1),
            )
            &&& forall|l: int|
                0 <= l < p.layers ==> #[trigger] r.keys[l as usize] == m.keys(
                    l as usize,
                    m.hidden_after(l),
                )
            &&& forall|l: int|
                0 <= l < p.layers ==> #[trigger] r.cached[l as usize] == m.values(
                    l as usize,
                    m.hidden_after(l),
                )
        }),
{
    let m = model_of(p);
    let n = p.layers as int;
    let b = layer_at(p, n);
    let body = body_ops(p, n);
    let head = head_ops(p, b);
    lemma_body(p, n, st);
    lemma_ops_join(m, st, body, head);
    reveal_with_fuel(after_ops, 4);
    assert(head.len() == 3);
    assert(1 <= b <= 1 + 4096 * 27) by (nonlinear_arith)
        requires
            b == 1 + n * layer_size(p),
            0 <= n <= 4096,
            0 <= layer_size(p) <= 27,
    ;
}

/// The graph that is kept for a count of tokens computes the model of the configuration: with
/// its sizes and all its layers, for the last of the tokens.
pub proof fn law_kept_graphs_compute_the_model(
    cfg: Qwen3Config,
    seqlen: usize,
    fused: bool,
    g: StepGraph,
    st: Known,
)
    requires
        is_step(cfg, seqlen, fused, g),
        fits(dims_of(cfg, seqlen, fused)),
    ensures
        ({
            let m = ModelDims {
                hidden: cfg.hidden_size as int,
                heads: cfg.num_attention_heads as int,
                kv_heads: cfg.num_key_value_heads as int,
                head_dim: cfg.head_dim as int,
                inter: cfg.intermediate_size as int,
            };
            after_all(m, st, g.models()).values[g.final_value] == logits_of(
                row(m.last_norm(cfg.num_hidden_layers as int), seqlen - 1),
            )
        }),
        dims_of(cfg, seqlen, fused).vocab == cfg.vocab_size,
        dims_of(cfg, seqlen, fused).fused == fused,
{
    law_step_computes_the_model(dims_of(cfg, seqlen, fused), st);
}

/// A warm-up has the sizes of the steps of the same configuration.
pub proof fn law_warm_up_is_of_the_model(
    cfg: Qwen3Config,
    seqlen: usize,
    fused: bool,
    max_seq_len: usize,
    block: usize,
)
    ensures
        ({
            let (w, p) = (warm_dims(cfg, max_seq_len, block), dims_of(cfg, seqlen, fused));
            &&& w.hidden == p.hidden && w.intermediate == p.inter && w.vocab == p.vocab
            &&& w.heads == p.heads && w.kv_heads == p.kv_heads && w.head_dim == p.head_dim
            &&& w.max_seq_len == max_seq_len && w.argmax_block == block
        }),
{
}

} // verus!
