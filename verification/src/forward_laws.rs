//! A forward step is a good step: its buffers can always be planned.
use crate::forward::{
    attention_at, attention_ops, body_keys, body_ops, ff_at, ff_ops, fits, head_keys, head_ops, heads_at,
    heads_ops, layer_at, layer_keys, layer_ops, layer_size, lemma_body_len, lemma_fits, qkv_ops,
    rope_at, rope_ops, step_keys, step_ops, step_result, vid, width, StepDims,
};
use crate::gguf::dims_product;
use crate::graph::{half_key, inputs_of, outs_of, Op, OpModel, SpecKey, TensorRef, ValueId};
use crate::plan_laws::{good_reshape, good_step, law_good_step_is_accepted, writes};
use crate::pool_plan::{
    bytes_of, lemma_written_bytes_bound, live_bytes_fit, op_in_range, op_sized, written_bytes,
};
use crate::run::{args_of, run_ops, run_start, FinalLogitsPolicy};
use crate::run_laws::{arg_typed, law_good_step_runs, well_typed};
use crate::step_graph::{occurrences, read_counts, reads, step_check};
use vstd::prelude::*;

verus! {

spec fn one(b: bool) -> nat {
    if b {
        1
    } else {
        0
    }
}

/// How often `v` occurs among at most three values.
spec fn among(s: Seq<ValueId>, v: ValueId) -> nat {
    one(s.len() > 0 && s[0] == v) + one(s.len() > 1 && s[1] == v) + one(s.len() > 2 && s[2] == v)
}

proof fn lemma_among(s: Seq<ValueId>, v: ValueId)
    requires
        s.len() <= 3,
    ensures
        occurrences(s, v) == among(s, v),
{
    reveal_with_fuel(occurrences, 4);
}

/// What one operation adds to the reads and writes of a value.
proof fn lemma_op(ops: Seq<OpModel>, k: nat, v: ValueId)
    ensures
        reads(ops, k + 1, v) == reads(ops, k, v) + among(inputs_of(ops[k as int]), v),
        writes(ops, k + 1, v) == writes(ops, k, v) + among(outs_of(ops[k as int]), v),
{
    lemma_among(inputs_of(ops[k as int]), v);
    lemma_among(outs_of(ops[k as int]), v);
}

/// What operation `j` writes is written before every later operation.
proof fn lemma_wrote(ops: Seq<OpModel>, j: int, i: int, k: int)
    requires
        0 <= j < k,
        0 <= i < outs_of(ops[j]).len(),
    ensures
        writes(ops, k as nat, outs_of(ops[j])[i]) >= 1,
    decreases k,
{
    let v = outs_of(ops[j])[i];
    lemma_op(ops, (k - 1) as nat, v);
    if j < k - 1 {
        lemma_wrote(ops, j, i, k - 1);
    }
}

/// Every input is one of the first `lo` values or written before it is read.
pub open spec fn ordered(ops: Seq<OpModel>, lo: int) -> bool {
    forall|k: int, i: int|
        0 <= k < ops.len() && 0 <= i < inputs_of(ops[k]).len() ==> ready(
            ops,
            k,
            #[trigger] inputs_of(ops[k])[i],
            lo,
        )
}

/// The value is one of the first `lo` or written by the first `k` operations.
pub open spec fn ready(ops: Seq<OpModel>, k: int, v: ValueId, lo: int) -> bool {
    v.0 < lo || writes(ops, k as nat, v) >= 1
}

/// The operations write exactly the values from `lo` on below `hi`, each once.
pub open spec fn fills(ops: Seq<OpModel>, lo: int, hi: int) -> bool {
    forall|v: ValueId| #[trigger]
        writes(ops, ops.len(), v) == (if lo <= v.0 < hi {
            1nat
        } else {
            0
        })
}

proof fn lemma_concat(a: Seq<OpModel>, c: Seq<OpModel>, k: nat, v: ValueId)
    requires
        k <= c.len(),
    ensures
        reads(a + c, a.len() + k, v) == reads(a, a.len(), v) + reads(c, k, v),
        writes(a + c, a.len() + k, v) == writes(a, a.len(), v) + writes(c, k, v),
    decreases k,
{
    if k == 0 {
        lemma_prefix(a, c, a.len(), v);
    } else {
        lemma_concat(a, c, (k - 1) as nat, v);
        assert((a + c)[a.len() + k - 1] == c[k - 1]);
    }
}

proof fn lemma_prefix(a: Seq<OpModel>, c: Seq<OpModel>, k: nat, v: ValueId)
    requires
        k <= a.len(),
    ensures
        reads(a + c, k, v) == reads(a, k, v),
        writes(a + c, k, v) == writes(a, k, v),
    decreases k,
{
    if k > 0 {
        lemma_prefix(a, c, (k - 1) as nat, v);
        assert((a + c)[k - 1] == a[k - 1]);
    }
}

/// Two runs of operations, the second on the values of the first, make one.
proof fn lemma_join(a: Seq<OpModel>, c: Seq<OpModel>, lo: int, mid: int, hi: int)
    requires
        fills(a, lo, mid),
        fills(c, mid, hi),
        ordered(a, lo),
        ordered(c, mid),
        lo <= mid <= hi,
    ensures
        fills(a + c, lo, hi),
        ordered(a + c, lo),
        forall|v: ValueId| #[trigger]
            reads(a + c, (a + c).len(), v) == reads(a, a.len(), v) + reads(c, c.len(), v),
{
    let all = a + c;
    assert forall|v: ValueId| #[trigger]
        reads(all, all.len(), v) == reads(a, a.len(), v) + reads(c, c.len(), v) by {
        lemma_concat(a, c, c.len(), v);
    }
    assert forall|v: ValueId| #[trigger]
        writes(all, all.len(), v) == (if lo <= v.0 < hi {
            1nat
        } else {
            0
        }) by {
        lemma_concat(a, c, c.len(), v);
        assert(writes(a, a.len(), v) <= 1 && writes(c, c.len(), v) <= 1);
    }
    assert forall|k: int, i: int|
        0 <= k < all.len() && 0 <= i < inputs_of(all[k]).len() implies ready(
        all,
        k,
        #[trigger] inputs_of(all[k])[i],
        lo,
    ) by {
        let v = inputs_of(all[k])[i];
        if k < a.len() {
            assert(all[k] == a[k]);
            lemma_prefix(a, c, k as nat, v);
            assert(ready(a, k, inputs_of(a[k])[i], lo));
        } else {
            let j = k - a.len();
            assert(all[k] == c[j]);
            lemma_concat(a, c, j as nat, v);
            assert(ready(c, j, inputs_of(c[j])[i], mid));
            assert(writes(a, a.len(), v) == (if lo <= v.0 < mid {
                1nat
            } else {
                0
            }));
        }
    }
}

/// Where the values of `rope_ops` end.
spec fn rope_end(p: StepDims, b: int) -> int {
    if p.fuses() {
        b + 1
    } else {
        b + 8
    }
}

/// Where the values of `ff_ops` end.
spec fn ff_end(p: StepDims, b: int) -> int {
    if p.decode() {
        b + 6
    } else {
        b + 5
    }
}

/// How often the projection to queries, keys and values reads `v`.
spec fn qkv_reads(p: StepDims, hidden: int, b: int, v: ValueId) -> nat {
    if v.0 == hidden {
        1
    } else if v.0 == b {
        if p.decode() {
            1
        } else {
            3
        }
    } else if p.decode() && v.0 == b + 4 {
        3
    } else {
        0
    }
}

#[verifier::spinoff_prover]
#[verifier::rlimit(40)]
proof fn lemma_qkv(p: StepDims, l: usize, hidden: int, b: int)
    requires
        0 <= hidden < b,
        b + 27 <= usize::MAX,
    ensures
        fills(qkv_ops(p, l, hidden, b), b, heads_at(p, b)),
        ordered(qkv_ops(p, l, hidden, b), b),
        forall|v: ValueId| #[trigger]
            reads(qkv_ops(p, l, hidden, b), qkv_ops(p, l, hidden, b).len(), v)
                == qkv_reads(p, hidden, b, v),
{
    let ops = qkv_ops(p, l, hidden, b);
    assert forall|v: ValueId|
        #![trigger reads(ops, ops.len(), v)]
        #![trigger writes(ops, ops.len(), v)]
        reads(ops, ops.len(), v) == qkv_reads(p, hidden, b, v)
            && writes(ops, ops.len(), v) == (if b <= v.0 < heads_at(p, b) {
            1nat
        } else {
            0
        }) by {
        if p.decode() {
            lemma_op(ops, 0, v);
            lemma_op(ops, 1, v);
            lemma_op(ops, 2, v);
            lemma_op(ops, 3, v);
            lemma_op(ops, 4, v);
        }
        else  {
            lemma_op(ops, 0, v);
            lemma_op(ops, 1, v);
            lemma_op(ops, 2, v);
            lemma_op(ops, 3, v);
        }
    }
    assert forall|k: int, i: int|
        0 <= k < ops.len() && 0 <= i < inputs_of(ops[k]).len() implies ready(
        ops,
        k,
        #[trigger] inputs_of(ops[k])[i],
        b,
    ) by {
        if p.decode() {
            if k == 1 {
                lemma_wrote(ops, 0, 0, 1);
            }
            if k == 2 {
                lemma_wrote(ops, 1, 0, 2);
            }
            if k == 3 {
                lemma_wrote(ops, 1, 0, 3);
            }
            if k == 4 {
                lemma_wrote(ops, 1, 0, 4);
            }
        }
        else  {
            if k == 1 {
                lemma_wrote(ops, 0, 0, 1);
            }
            if k == 2 {
                lemma_wrote(ops, 0, 0, 2);
            }
            if k == 3 {
                lemma_wrote(ops, 0, 0, 3);
            }
        }
    }
}

/// How often the reshapes to heads read `v`.
spec fn heads_reads(q: int, v: ValueId) -> nat {
    one(q <= v.0 <= q + 2)
}

proof fn lemma_heads(p: StepDims, q: int, b: int)
    requires
        0 <= q,
        q + 2 < b,
        b + 27 <= usize::MAX,
    ensures
        fills(heads_ops(p, q, b), b, b + 3),
        ordered(heads_ops(p, q, b), b),
        forall|v: ValueId| #[trigger]
            reads(heads_ops(p, q, b), heads_ops(p, q, b).len(), v) == heads_reads(q, v),
{
    let ops = heads_ops(p, q, b);
    assert forall|v: ValueId|
        #![trigger reads(ops, ops.len(), v)]
        #![trigger writes(ops, ops.len(), v)]
        reads(ops, ops.len(), v) == heads_reads(q, v)
            && writes(ops, ops.len(), v) == (if b <= v.0 < b + 3 {
            1nat
        } else {
            0
        }) by {
            lemma_op(ops, 0, v);
            lemma_op(ops, 1, v);
            lemma_op(ops, 2, v);
    }
    assert forall|k: int, i: int|
        0 <= k < ops.len() && 0 <= i < inputs_of(ops[k]).len() implies ready(
        ops,
        k,
        #[trigger] inputs_of(ops[k])[i],
        b,
    ) by {
    }
}

/// How often norm, rotary embedding and cache update read `v`.
spec fn rope_reads(p: StepDims, h: int, b: int, v: ValueId) -> nat {
    one(h <= v.0 <= h + 2) + one(!p.fuses() && b + 1 <= v.0 <= b + 7)
}

#[verifier::spinoff_prover]
#[verifier::rlimit(40)]
proof fn lemma_rope(p: StepDims, l: usize, h: int, b: int)
    requires
        0 <= h,
        h + 2 < b,
        b + 27 <= usize::MAX,
    ensures
        fills(rope_ops(p, l, h, b), b, rope_end(p, b)),
        ordered(rope_ops(p, l, h, b), b),
        forall|v: ValueId| #[trigger]
            reads(rope_ops(p, l, h, b), rope_ops(p, l, h, b).len(), v) == rope_reads(p, h, b, v),
{
    let ops = rope_ops(p, l, h, b);
    assert forall|v: ValueId|
        #![trigger reads(ops, ops.len(), v)]
        #![trigger writes(ops, ops.len(), v)]
        reads(ops, ops.len(), v) == rope_reads(p, h, b, v)
            && writes(ops, ops.len(), v) == (if b <= v.0 < rope_end(p, b) {
            1nat
        } else {
            0
        }) by {
        if p.fuses() {
            lemma_op(ops, 0, v);
        }
        else  {
            lemma_op(ops, 0, v);
            lemma_op(ops, 1, v);
            lemma_op(ops, 2, v);
            lemma_op(ops, 3, v);
            lemma_op(ops, 4, v);
            lemma_op(ops, 5, v);
            lemma_op(ops, 6, v);
            lemma_op(ops, 7, v);
            lemma_op(ops, 8, v);
        }
    }
    assert forall|k: int, i: int|
        0 <= k < ops.len() && 0 <= i < inputs_of(ops[k]).len() implies ready(
        ops,
        k,
        #[trigger] inputs_of(ops[k])[i],
        b,
    ) by {
        if p.fuses() {
        }
        else  {
            if k == 2 {
                lemma_wrote(ops, 0, 0, 2);
            }
            if k == 3 {
                lemma_wrote(ops, 1, 0, 3);
            }
            if k == 4 {
                lemma_wrote(ops, 2, 0, 4);
            }
            if k == 5 {
                lemma_wrote(ops, 3, 0, 5);
            }
            if k == 6 {
                lemma_wrote(ops, 4, 0, 6);
            }
            if k == 7 {
                lemma_wrote(ops, 5, 0, 7);
            }
            if k == 8 {
                lemma_wrote(ops, 7, 0, 8);
            }
        }
    }
}

/// How often the attention part reads `v`.
spec fn attention_reads(hidden: int, q: int, b: int, v: ValueId) -> nat {
    one(v.0 == hidden) + one(v.0 == q) + one(b <= v.0 <= b + 2)
}

#[verifier::spinoff_prover]
#[verifier::rlimit(40)]
proof fn lemma_attention(p: StepDims, l: usize, hidden: int, q: int, b: int)
    requires
        0 <= hidden < b,
        0 <= q < b,
        b + 27 <= usize::MAX,
    ensures
        fills(attention_ops(p, l, hidden, q, b), b, b + 5),
        ordered(attention_ops(p, l, hidden, q, b), b),
        forall|v: ValueId| #[trigger]
            reads(attention_ops(p, l, hidden, q, b), attention_ops(p, l, hidden, q, b).len(), v)
                == attention_reads(hidden, q, b, v),
{
    let ops = attention_ops(p, l, hidden, q, b);
    assert forall|v: ValueId|
        #![trigger reads(ops, ops.len(), v)]
        #![trigger writes(ops, ops.len(), v)]
        reads(ops, ops.len(), v) == attention_reads(hidden, q, b, v)
            && writes(ops, ops.len(), v) == (if b <= v.0 < b + 5 {
            1nat
        } else {
            0
        }) by {
            lemma_op(ops, 0, v);
            lemma_op(ops, 1, v);
            lemma_op(ops, 2, v);
            lemma_op(ops, 3, v);
    }
    assert forall|k: int, i: int|
        0 <= k < ops.len() && 0 <= i < inputs_of(ops[k]).len() implies ready(
        ops,
        k,
        #[trigger] inputs_of(ops[k])[i],
        b,
    ) by {
            if k == 1 {
                lemma_wrote(ops, 0, 0, 1);
            }
            if k == 2 {
                lemma_wrote(ops, 1, 0, 2);
            }
            if k == 3 {
                lemma_wrote(ops, 2, 0, 3);
            }
    }
}

/// How often the feed-forward part reads `v`.
spec fn ff_reads(p: StepDims, sum: int, b: int, v: ValueId) -> nat {
    if v.0 == sum {
        1
    } else if v.0 == sum + 1 {
        if p.decode() {
            1
        } else {
            2
        }
    } else if p.decode() {
        if v.0 == b + 2 {
            2
        } else {
            one(b <= v.0 <= b + 4)
        }
    } else {
        one(b <= v.0 <= b + 3)
    }
}

#[verifier::spinoff_prover]
#[verifier::rlimit(40)]
proof fn lemma_ff(p: StepDims, l: usize, sum: int, b: int)
    requires
        0 <= sum,
        sum + 1 < b,
        b + 27 <= usize::MAX,
    ensures
        fills(ff_ops(p, l, sum, b), b, ff_end(p, b)),
        ordered(ff_ops(p, l, sum, b), b),
        forall|v: ValueId| #[trigger]
            reads(ff_ops(p, l, sum, b), ff_ops(p, l, sum, b).len(), v) == ff_reads(p, sum, b, v),
{
    let ops = ff_ops(p, l, sum, b);
    assert forall|v: ValueId|
        #![trigger reads(ops, ops.len(), v)]
        #![trigger writes(ops, ops.len(), v)]
        reads(ops, ops.len(), v) == ff_reads(p, sum, b, v)
            && writes(ops, ops.len(), v) == (if b <= v.0 < ff_end(p, b) {
            1nat
        } else {
            0
        }) by {
        if p.decode() {
            lemma_op(ops, 0, v);
            lemma_op(ops, 1, v);
            lemma_op(ops, 2, v);
            lemma_op(ops, 3, v);
            lemma_op(ops, 4, v);
            lemma_op(ops, 5, v);
        }
        else  {
            lemma_op(ops, 0, v);
            lemma_op(ops, 1, v);
            lemma_op(ops, 2, v);
            lemma_op(ops, 3, v);
            lemma_op(ops, 4, v);
        }
    }
    assert forall|k: int, i: int|
        0 <= k < ops.len() && 0 <= i < inputs_of(ops[k]).len() implies ready(
        ops,
        k,
        #[trigger] inputs_of(ops[k])[i],
        b,
    ) by {
        if p.decode() {
            if k == 1 {
                lemma_wrote(ops, 0, 0, 1);
            }
            if k == 2 {
                lemma_wrote(ops, 0, 0, 2);
            }
            if k == 3 {
                lemma_wrote(ops, 1, 0, 3);
                lemma_wrote(ops, 2, 0, 3);
            }
            if k == 4 {
                lemma_wrote(ops, 3, 0, 4);
            }
            if k == 5 {
                lemma_wrote(ops, 4, 0, 5);
            }
        }
        else  {
            if k == 2 {
                lemma_wrote(ops, 0, 0, 2);
                lemma_wrote(ops, 1, 0, 2);
            }
            if k == 3 {
                lemma_wrote(ops, 2, 0, 3);
            }
            if k == 4 {
                lemma_wrote(ops, 3, 0, 4);
            }
        }
    }
}


/// How often a layer reads `v`.
spec fn layer_reads(p: StepDims, b: int, v: ValueId) -> nat {
    qkv_reads(p, b - 1, b, v) + heads_reads(b + 1, v) + rope_reads(
        p,
        heads_at(p, b),
        rope_at(p, b),
        v,
    ) + attention_reads(b - 1, rope_at(p, b), attention_at(p, b), v) + ff_reads(
        p,
        attention_at(p, b) + 3,
        ff_at(p, b),
        v,
    )
}

proof fn lemma_layer(p: StepDims, l: usize, b: int)
    requires
        p.seqlen >= 1,
        1 <= b,
        b + 60 <= usize::MAX,
    ensures
        fills(layer_ops(p, l, b), b, b + layer_size(p)),
        ordered(layer_ops(p, l, b), b),
        forall|v: ValueId| #[trigger]
            reads(layer_ops(p, l, b), layer_ops(p, l, b).len(), v) == layer_reads(p, b, v),
{
    let qkv = qkv_ops(p, l, b - 1, b);
    let heads = heads_ops(p, b + 1, heads_at(p, b));
    let rope = rope_ops(p, l, heads_at(p, b), rope_at(p, b));
    let attention = attention_ops(p, l, b - 1, rope_at(p, b), attention_at(p, b));
    let ff = ff_ops(p, l, attention_at(p, b) + 3, ff_at(p, b));
    lemma_qkv(p, l, b - 1, b);
    lemma_heads(p, b + 1, heads_at(p, b));
    lemma_rope(p, l, heads_at(p, b), rope_at(p, b));
    lemma_attention(p, l, b - 1, rope_at(p, b), attention_at(p, b));
    lemma_ff(p, l, attention_at(p, b) + 3, ff_at(p, b));
    lemma_join(qkv, heads, b, heads_at(p, b), rope_at(p, b));
    lemma_join(qkv + heads, rope, b, rope_at(p, b), attention_at(p, b));
    lemma_join(qkv + heads + rope, attention, b, attention_at(p, b), ff_at(p, b));
    lemma_join(
        qkv + heads + rope + attention,
        ff,
        b,
        ff_at(p, b),
        b + layer_size(p),
    );
    let all = layer_ops(p, l, b);
    assert forall|v: ValueId| #[trigger] reads(all, all.len(), v) == layer_reads(p, b, v) by {
        assert(reads(qkv, qkv.len(), v) == qkv_reads(p, b - 1, b, v));
        assert(reads(heads, heads.len(), v) == heads_reads(b + 1, v));
        assert(reads(rope, rope.len(), v) == rope_reads(p, heads_at(p, b), rope_at(p, b), v));
        assert(reads(attention, attention.len(), v) == attention_reads(
            b - 1,
            rope_at(p, b),
            attention_at(p, b),
            v,
        ));
        assert(reads(ff, ff.len(), v) == ff_reads(p, attention_at(p, b) + 3, ff_at(p, b), v));
        let three = qkv + heads + rope;
        let four = three + attention;
        assert(reads(qkv + heads, (qkv + heads).len(), v) == reads(qkv, qkv.len(), v) + reads(
            heads,
            heads.len(),
            v,
        ));
        assert(reads(three, three.len(), v) == reads(qkv + heads, (qkv + heads).len(), v) + reads(
            rope,
            rope.len(),
            v,
        ));
        assert(reads(four, four.len(), v) == reads(three, three.len(), v) + reads(
            attention,
            attention.len(),
            v,
        ));
    }
}

/// A layer reads the hidden state it stands on and each of its own values but the last,
/// and nothing else.
proof fn lemma_layer_reads(p: StepDims, b: int, v: ValueId)
    requires
        p.seqlen >= 1,
        1 <= b,
    ensures
        layer_reads(p, b, v) >= 1 <==> b - 1 <= v.0 < b + layer_size(p) - 1,
{
}

proof fn lemma_numel2(a: usize, b: usize)
    requires
        a * b <= usize::MAX,
    ensures
        half_key(seq![a, b]).numel() == a * b,
        dims_product(seq![a, b]) is Some,
{
    reveal_with_fuel(dims_product, 3);
    let s = seq![a, b];
    assert(s.drop_last() =~= seq![a]);
    assert(seq![a].drop_last() =~= Seq::empty());
    assert(dims_product(Seq::empty()) == Some(1usize));
    let unit: usize = 1;
    assert(unit * a == a) by (nonlinear_arith)
        requires
            unit == 1,
    ;
    assert(dims_product(seq![a]) == Some(a));
}

proof fn lemma_numel3(a: usize, b: usize, c: usize)
    requires
        a * b <= usize::MAX,
        (a * b) * c <= usize::MAX,
    ensures
        half_key(seq![a, b, c]).numel() == (a * b) * c,
        dims_product(seq![a, b, c]) is Some,
{
    reveal_with_fuel(dims_product, 4);
    let s = seq![a, b, c];
    assert(s.drop_last() =~= seq![a, b]);
    lemma_numel2(a, b);
}

/// No buffer of this kind takes more than `most` elements.
spec fn small(k: SpecKey, most: int) -> bool {
    dims_product(k.shape) is Some && k.numel() <= most
}

/// The kinds of buffer of a layer: how large they are, and which hold equally many
/// elements.
proof fn lemma_sizes(p: StepDims)
    requires
        fits(p),
    ensures
        small(half_key(seq![p.seqlen, p.hidden]), p.seqlen * width(p)),
        small(half_key(seq![p.seqlen, p.attn()]), p.seqlen * width(p)),
        small(half_key(seq![p.seqlen, p.kv()]), p.seqlen * width(p)),
        small(
            half_key(seq![p.seqlen, (p.attn() + 2 * p.kv()) as usize]),
            p.seqlen * width(p),
        ),
        small(half_key(seq![p.seqlen, p.inter]), p.seqlen * width(p)),
        small(half_key(seq![p.seqlen, (2 * p.inter) as usize]), p.seqlen * width(p)),
        small(half_key(seq![p.seqlen, p.heads, p.head_dim]), p.seqlen * width(p)),
        small(half_key(seq![p.seqlen, p.kv_heads, p.head_dim]), p.seqlen * width(p)),
        small(half_key(seq![(p.seqlen * p.heads) as usize, p.head_dim]), p.seqlen * width(p)),
        small(half_key(seq![(p.seqlen * p.kv_heads) as usize, p.head_dim]), p.seqlen * width(p)),
        half_key(seq![p.seqlen, p.heads, p.head_dim]).numel() == half_key(
            seq![p.seqlen, p.attn()],
        ).numel(),
        half_key(seq![p.seqlen, p.kv_heads, p.head_dim]).numel() == half_key(
            seq![p.seqlen, p.kv()],
        ).numel(),
        half_key(seq![p.seqlen, p.heads, p.head_dim]).numel() == half_key(
            seq![(p.seqlen * p.heads) as usize, p.head_dim],
        ).numel(),
        half_key(seq![p.seqlen, p.kv_heads, p.head_dim]).numel() == half_key(
            seq![(p.seqlen * p.kv_heads) as usize, p.head_dim],
        ).numel(),
{
    lemma_fits(p);
    let s = p.seqlen as int;
    let w = width(p);
    lemma_within(s, p.hidden as int, w);
    lemma_within(s, p.attn() as int, w);
    lemma_within(s, p.kv() as int, w);
    lemma_within(s, p.attn() + 2 * p.kv(), w);
    lemma_within(s, p.inter as int, w);
    lemma_within(s, 2 * p.inter, w);
    lemma_numel2(p.seqlen, p.hidden);
    lemma_numel2(p.seqlen, p.attn());
    lemma_numel2(p.seqlen, p.kv());
    lemma_numel2(p.seqlen, (p.attn() + 2 * p.kv()) as usize);
    lemma_numel2(p.seqlen, p.inter);
    lemma_numel2(p.seqlen, (2 * p.inter) as usize);
    assert((p.seqlen * p.heads) * p.head_dim == p.seqlen * (p.heads * p.head_dim))
        by (nonlinear_arith);
    assert((p.seqlen * p.kv_heads) * p.head_dim == p.seqlen * (p.kv_heads * p.head_dim))
        by (nonlinear_arith);
    lemma_numel3(p.seqlen, p.heads, p.head_dim);
    lemma_numel3(p.seqlen, p.kv_heads, p.head_dim);
    lemma_numel2((p.seqlen * p.heads) as usize, p.head_dim);
    lemma_numel2((p.seqlen * p.kv_heads) as usize, p.head_dim);
}

proof fn lemma_within(s: int, x: int, w: int)
    requires
        s >= 0,
        0 <= x <= w,
    ensures
        0 <= s * x <= s * w,
{
    assert(0 <= s * x <= s * w) by (nonlinear_arith)
        requires
            s >= 0,
            0 <= x <= w,
    ;
}

/// The reshapes of a layer: each reads a value of the layer that nothing else reads, and
/// keeps its element count. `keys` are the values of the layer, `b` is where they begin.
spec fn local_reshape(p: StepDims, op: OpModel, keys: Seq<SpecKey>, b: int) -> bool {
    match op {
        Op::Reshape { input, out, .. } => match input {
            TensorRef::Value(v) => {
                &&& b <= v.0 < b + keys.len() - 1
                &&& b <= out.0 < b + keys.len()
                &&& layer_reads(p, b, v) == 1
                &&& keys[v.0 - b].numel() == keys[out.0 - b].numel()
            },
            TensorRef::Weight(_) => false,
        },
        _ => true,
    }
}

proof fn lemma_layer_reshapes(p: StepDims, l: usize, b: int)
    requires
        fits(p),
        1 <= b,
        b + 60 <= usize::MAX,
    ensures
        forall|k: int|
            0 <= k < layer_ops(p, l, b).len() ==> local_reshape(
                p,
                #[trigger] layer_ops(p, l, b)[k],
                layer_keys(p),
                b,
            ),
        forall|i: int|
            0 <= i < layer_keys(p).len() ==> small(
                #[trigger] layer_keys(p)[i],
                p.seqlen * width(p),
            ),
{
    lemma_sizes(p);
    lemma_body_len(p, 0);
    let qkv = qkv_ops(p, l, b - 1, b);
    let heads = heads_ops(p, b + 1, heads_at(p, b));
    let rope = rope_ops(p, l, heads_at(p, b), rope_at(p, b));
    let attention = attention_ops(p, l, b - 1, rope_at(p, b), attention_at(p, b));
    let ff = ff_ops(p, l, attention_at(p, b) + 3, ff_at(p, b));
    let keys = layer_keys(p);
    let all = layer_ops(p, l, b);
    assert forall|k: int| 0 <= k < all.len() implies local_reshape(
        p,
        #[trigger] all[k],
        keys,
        b,
    ) by {
        let at1 = qkv.len() as int;
        let at2 = at1 + heads.len();
        let at3 = at2 + rope.len();
        let at4 = at3 + attention.len();
        if k < at1 {
            assert(all[k] == qkv[k]);
        } else if k < at2 {
            assert(all[k] == heads[k - at1]);
        } else if k < at3 {
            assert(all[k] == rope[k - at2]);
        } else if k < at4 {
            assert(all[k] == attention[k - at3]);
        } else {
            assert(all[k] == ff[k - at4]);
        }
    }
}

/// A reshape reads a value below `n - 1` that nothing else reads, writes one below `n`,
/// and keeps the element count.
spec fn whole_reshape(op: OpModel, ops: Seq<OpModel>, keys: Seq<SpecKey>, n: int) -> bool {
    match op {
        Op::Reshape { input, out, .. } => match input {
            TensorRef::Value(v) => {
                &&& v.0 < n - 1
                &&& out.0 < n
                &&& reads(ops, ops.len(), v) == 1
                &&& keys[v.0 as int].numel() == keys[out.0 as int].numel()
            },
            TensorRef::Weight(_) => false,
        },
        _ => true,
    }
}

/// Operations on `n` values: each is written once and before it is read, all but the last
/// are read, and the reshapes are in order.
spec fn sound(ops: Seq<OpModel>, keys: Seq<SpecKey>, n: int) -> bool {
    &&& keys.len() == n
    &&& fills(ops, 0, n)
    &&& ordered(ops, 0)
    &&& forall|v: ValueId| #[trigger] reads(ops, ops.len(), v) >= 1 <==> v.0 < n - 1
    &&& forall|k: int| 0 <= k < ops.len() ==> whole_reshape(#[trigger] ops[k], ops, keys, n)
}

#[verifier::rlimit(30)]
proof fn lemma_body(p: StepDims, l: int)
    requires
        fits(p),
        0 <= l <= p.layers,
    ensures
        sound(body_ops(p, l), body_keys(p, l), layer_at(p, l)),
        body_ops(p, l).len() <= 1 + 27 * l,
        forall|i: int|
            0 <= i < body_keys(p, l).len() ==> small(
                #[trigger] body_keys(p, l)[i],
                p.seqlen * width(p),
            ),
    decreases l,
{
    let ops = body_ops(p, l);
    let keys = body_keys(p, l);
    let n = layer_at(p, l);
    lemma_body_len(p, l);
    if l <= 0 {
        lemma_sizes(p);
        assert forall|v: ValueId|
            #![trigger reads(ops, ops.len(), v)]
            #![trigger writes(ops, ops.len(), v)]
            reads(ops, ops.len(), v) == 0 && writes(ops, ops.len(), v) == one(v.0 == 0) by {
            lemma_op(ops, 0, v);
        }
    } else {
        let front = body_ops(p, l - 1);
        let front_keys = body_keys(p, l - 1);
        let b = layer_at(p, l - 1);
        let layer = layer_ops(p, (l - 1) as usize, b);
        lemma_body(p, l - 1);
        assert(0 <= (l - 1) * layer_size(p) <= 4096 * 27) by (nonlinear_arith)
            requires
                0 <= l - 1 <= 4096,
                0 <= layer_size(p) <= 27,
        ;
        assert(l * layer_size(p) == (l - 1) * layer_size(p) + layer_size(p)) by (nonlinear_arith);
        lemma_layer(p, (l - 1) as usize, b);
        lemma_layer_reshapes(p, (l - 1) as usize, b);
        lemma_join(front, layer, 0, b, n);
        assert forall|v: ValueId| #[trigger] reads(ops, ops.len(), v) >= 1 <==> v.0 < n - 1 by {
            lemma_layer_reads(p, b, v);
            assert(reads(layer, layer.len(), v) == layer_reads(p, b, v));
            assert(reads(front, front.len(), v) >= 1 <==> v.0 < b - 1);
        }
        assert forall|k: int| 0 <= k < ops.len() implies whole_reshape(
            #[trigger] ops[k],
            ops,
            keys,
            n,
        ) by {
            if k < front.len() {
                assert(ops[k] == front[k]);
                assert(whole_reshape(front[k], front, front_keys, b));
                match ops[k] {
                    Op::Reshape { input: TensorRef::Value(v), out, .. } => {
                        lemma_layer_reads(p, b, v);
                        assert(reads(ops, ops.len(), v) == reads(front, front.len(), v) + reads(
                            layer,
                            layer.len(),
                            v,
                        ));
                        assert(reads(layer, layer.len(), v) == layer_reads(p, b, v));
                        assert(keys[v.0 as int] == front_keys[v.0 as int]);
                        assert(keys[out.0 as int] == front_keys[out.0 as int]);
                    },
                    _ => {},
                }
            } else {
                assert(ops[k] == layer[k - front.len()]);
                assert(local_reshape(p, layer[k - front.len()], layer_keys(p), b));
                match ops[k] {
                    Op::Reshape { input: TensorRef::Value(v), out, .. } => {
                        assert(reads(ops, ops.len(), v) == reads(front, front.len(), v) + reads(
                            layer,
                            layer.len(),
                            v,
                        ));
                        assert(reads(layer, layer.len(), v) == layer_reads(p, b, v));
                        assert(!(reads(front, front.len(), v) >= 1));
                        assert(keys[v.0 as int] == layer_keys(p)[v.0 - b]);
                        assert(keys[out.0 as int] == layer_keys(p)[out.0 - b]);
                    },
                    _ => {},
                }
            }
        }
        assert forall|i: int| 0 <= i < keys.len() implies small(
            #[trigger] keys[i],
            p.seqlen * width(p),
        ) by {
            if i < b {
                assert(keys[i] == front_keys[i]);
            } else {
                assert(keys[i] == layer_keys(p)[i - b]);
            }
        }
        assert(layer.len() <= 27);
    }
}

/// How often the final norm, row and product read `v`.
spec fn head_reads(b: int, v: ValueId) -> nat {
    one(b - 1 <= v.0 <= b + 1)
}

proof fn lemma_head(p: StepDims, b: int)
    requires
        1 <= b,
        b + 3 <= usize::MAX,
    ensures
        fills(head_ops(p, b), b, b + 3),
        ordered(head_ops(p, b), b),
        forall|v: ValueId| #[trigger]
            reads(head_ops(p, b), head_ops(p, b).len(), v) == head_reads(b, v),
{
    let ops = head_ops(p, b);
    assert forall|v: ValueId|
        #![trigger reads(ops, ops.len(), v)]
        #![trigger writes(ops, ops.len(), v)]
        reads(ops, ops.len(), v) == head_reads(b, v) && writes(ops, ops.len(), v) == (if b <= v.0
            < b + 3 {
            1nat
        } else {
            0
        }) by {
        lemma_op(ops, 0, v);
        lemma_op(ops, 1, v);
        lemma_op(ops, 2, v);
    }
    assert forall|k: int, i: int|
        0 <= k < ops.len() && 0 <= i < inputs_of(ops[k]).len() implies ready(
        ops,
        k,
        #[trigger] inputs_of(ops[k])[i],
        b,
    ) by {
        if k == 1 {
            lemma_wrote(ops, 0, 0, 1);
        }
        if k == 2 {
            lemma_wrote(ops, 1, 0, 2);
        }
    }
}

/// What an operation names is read or written.
proof fn lemma_named(ops: Seq<OpModel>, k: int, n: int)
    requires
        0 <= k < ops.len(),
        fills(ops, 0, n),
        forall|v: ValueId| #[trigger] reads(ops, ops.len(), v) >= 1 ==> v.0 < n,
        0 <= n,
    ensures
        op_in_range(ops[k], n as nat),
{
    let op = ops[k];
    assert forall|i: int| 0 <= i < inputs_of(op).len() implies (#[trigger] inputs_of(op)[i]).0
        < n by {
        let v = inputs_of(op)[i];
        lemma_op(ops, k as nat, v);
        lemma_tally_grows(ops, (k + 1) as nat, ops.len(), v);
    }
    assert forall|i: int| 0 <= i < outs_of(op).len() implies (#[trigger] outs_of(op)[i]).0 < n by {
        let v = outs_of(op)[i];
        lemma_op(ops, k as nat, v);
        lemma_tally_grows(ops, (k + 1) as nat, ops.len(), v);
        assert(writes(ops, ops.len(), v) >= 1);
    }
}

proof fn lemma_tally_grows(ops: Seq<OpModel>, a: nat, b: nat, v: ValueId)
    requires
        a <= b,
    ensures
        reads(ops, a, v) <= reads(ops, b, v),
        writes(ops, a, v) <= writes(ops, b, v),
    decreases b,
{
    if a < b {
        lemma_tally_grows(ops, a, (b - 1) as nat, v);
    }
}

/// The first `k` operations write no more than two values of `most` elements each.
proof fn lemma_written(ops: Seq<OpModel>, k: nat, keys: Seq<SpecKey>, n: int, most: int)
    requires
        k <= ops.len(),
        0 <= n <= keys.len(),
        0 <= most,
        forall|i: int| 0 <= i < n ==> small(#[trigger] keys[i], most),
        forall|i: int, j: int|
            0 <= i < k && 0 <= j < outs_of(ops[i]).len() ==> (#[trigger] outs_of(ops[i])[j]).0 < n,
    ensures
        written_bytes(ops, k, keys) <= 4 * (most * k),
    decreases k,
{
    if k > 0 {
        lemma_written(ops, (k - 1) as nat, keys, n, most);
        let outs = outs_of(ops[k - 1]);
        reveal_with_fuel(bytes_of, 3);
        assert(outs.len() > 0 ==> outs[0].0 < n);
        assert(outs.len() > 1 ==> outs[1].0 < n);
        assert(bytes_of(outs, keys) <= 4 * most) by {
            if outs.len() > 0 {
                assert(small(keys[outs[0].0 as int], most));
            }
            if outs.len() > 1 {
                assert(small(keys[outs[1].0 as int], most));
                assert(outs.drop_last()[0] == outs[0]);
            }
        }
        assert(most * k == most * (k - 1) + most) by (nonlinear_arith);
    }
}

/// Every value of a forward step is written once and before it is read, only the logits
/// are never read, a reshape has its value to itself and keeps its element count, and the
/// bytes of every value can be counted.
#[verifier::rlimit(30)]
pub proof fn law_forward_step_is_good(p: StepDims)
    requires
        fits(p),
    ensures
        good_step(step_ops(p), step_keys(p), step_result(p)),
        step_check(step_ops(p), step_keys(p), step_result(p)) is Ok,
        forall|i: int| 0 <= i < step_keys(p).len() ==> (#[trigger] step_keys(p)[i]).sized(),
        forall|v: ValueId| #[trigger]
            reads(step_ops(p), step_ops(p).len(), v) == 0 && v.0 < step_keys(p).len() ==> v
                == step_result(p),
{
    let l = p.layers as int;
    let b = layer_at(p, l);
    let n = b + 3;
    let front = body_ops(p, l);
    let front_keys = body_keys(p, l);
    let head = head_ops(p, b);
    let ops = step_ops(p);
    let keys = step_keys(p);
    let most = p.seqlen * width(p);
    lemma_fits(p);
    lemma_body(p, l);
    lemma_body_len(p, l);
    assert(l * layer_size(p) >= 0) by (nonlinear_arith)
        requires
            l >= 0,
            layer_size(p) >= 0,
    ;
    lemma_head(p, b);
    lemma_join(front, head, 0, b, n);
    assert forall|v: ValueId| #[trigger] reads(ops, ops.len(), v) >= 1 <==> v.0 < n - 1 by {
        assert(reads(front, front.len(), v) >= 1 <==> v.0 < b - 1);
        assert(reads(head, head.len(), v) == head_reads(b, v));
    }
    assert(reads(ops, ops.len(), step_result(p)) == 0) by {
        assert(!(reads(ops, ops.len(), step_result(p)) >= 1));
    }
    assert forall|k: int| 0 <= k < ops.len() implies good_reshape(
        #[trigger] ops[k],
        ops,
        keys,
        step_result(p),
    ) by {
        if k < front.len() {
            assert(ops[k] == front[k]);
            assert(whole_reshape(front[k], front, front_keys, b));
            match ops[k] {
                Op::Reshape { input: TensorRef::Value(v), out, .. } => {
                    assert(reads(ops, ops.len(), v) == reads(front, front.len(), v) + reads(
                        head,
                        head.len(),
                        v,
                    ));
                    assert(reads(head, head.len(), v) == head_reads(b, v));
                    assert(keys[v.0 as int] == front_keys[v.0 as int]);
                    assert(keys[out.0 as int] == front_keys[out.0 as int]);
                },
                _ => {},
            }
        } else {
            assert(ops[k] == head[k - front.len()]);
        }
    }
    assert forall|i: int| 0 <= i < ops.len() implies op_in_range(#[trigger] ops[i], keys.len()) by {
        lemma_named(ops, i, n);
    }
    lemma_sizes(p);
    lemma_numel1(p.hidden);
    lemma_numel1(p.vocab);
    assert(most >= 0);
    assert(2 * most * (56 * (l + 1)) == 112 * (most * (l + 1))) by (nonlinear_arith);
    assert(most * (l + 1) >= most && most * l >= 0 && most * (l + 1) == most * l + most)
        by (nonlinear_arith)
        requires
            most >= 0,
            l >= 0,
    ;
    assert forall|i: int| 0 <= i < keys.len() implies (#[trigger] keys[i]).sized() by {
        if i < b {
            assert(keys[i] == front_keys[i]);
            assert(small(front_keys[i], most));
        }
    }
    let m = front.len();
    assert forall|i: int, j: int| 0 <= i < m && 0 <= j < outs_of(ops[i]).len() implies (
    #[trigger] outs_of(ops[i])[j]).0 < b by {
        assert(ops[i] == front[i]);
        lemma_named(front, i, b);
    }
    assert forall|i: int| 0 <= i < b implies small(#[trigger] keys[i], most) by {
        assert(keys[i] == front_keys[i]);
    }
    lemma_written(ops, m, keys, b, most);
    assert(most * m <= most * (1 + 27 * l)) by (nonlinear_arith)
        requires
            most >= 0,
            0 <= m <= 1 + 27 * l,
    ;
    assert(most * (1 + 27 * l) == most + 27 * (most * l)) by (nonlinear_arith);
    lemma_head_bytes(p);
    assert forall|v: ValueId| #[trigger] writes(ops, ops.len(), v) <= 1 by {}
    assert forall|k: int, i: int|
        0 <= k < ops.len() && 0 <= i < inputs_of(ops[k]).len() implies writes(
        ops,
        k as nat,
        #[trigger] inputs_of(ops[k])[i],
    ) >= 1 by {
        assert(ready(ops, k, inputs_of(ops[k])[i], 0));
    }
    assert(3 * ops.len() <= usize::MAX);
    let uses = read_counts(ops, keys.len());
    assert forall|i: int| 0 <= i < ops.len() implies #[trigger] live_bytes_fit(
        ops,
        i,
        keys,
        uses,
        step_result(p),
    ) by {
        lemma_written_bytes_bound(ops, i as nat, keys, uses, step_result(p));
    }
    assert forall|i: int| 0 <= i < ops.len() implies op_sized(
        #[trigger] ops[i],
        keys,
        step_result(p),
    ) by {
        assert(op_in_range(ops[i], keys.len()));
    }
    assert(good_step(ops, keys, step_result(p)));
    law_good_step_is_accepted(ops, keys, step_result(p));
}

proof fn lemma_numel1(a: usize)
    ensures
        half_key(seq![a]).numel() == a,
        dims_product(seq![a]) is Some,
{
    reveal_with_fuel(dims_product, 2);
    assert(seq![a].drop_last() =~= Seq::empty());
    let unit: usize = 1;
    assert(unit * a == a) by (nonlinear_arith)
        requires
            unit == 1,
    ;
}

/// The last three operations of a step write the final norm, its last row and the logits.
proof fn lemma_head_bytes(p: StepDims)
    requires
        fits(p),
    ensures
        written_bytes(step_ops(p), step_ops(p).len(), step_keys(p)) <= written_bytes(
            step_ops(p),
            body_ops(p, p.layers as int).len(),
            step_keys(p),
        ) + 4 * (p.seqlen * width(p)) + 2 * p.vocab,
{
    let l = p.layers as int;
    let b = layer_at(p, l);
    let m = body_ops(p, l).len();
    let ops = step_ops(p);
    let keys = step_keys(p);
    lemma_fits(p);
    lemma_sizes(p);
    lemma_body_len(p, l);
    lemma_numel1(p.hidden);
    lemma_numel1(p.vocab);
    assert(l * layer_size(p) >= 0) by (nonlinear_arith)
        requires
            l >= 0,
            layer_size(p) >= 0,
    ;
    let head = head_ops(p, b);
    assert(ops[m as int] == head[0]);
    assert(ops[m as int + 1] == head[1]);
    assert(ops[m as int + 2] == head[2]);
    assert(keys[b] == head_keys(p)[0]);
    assert(keys[b + 1] == head_keys(p)[1]);
    assert(keys[b + 2] == head_keys(p)[2]);
    reveal_with_fuel(bytes_of, 2);
    reveal_with_fuel(written_bytes, 4);
    assert(outs_of(head[0]) =~= seq![vid(b)]);
    assert(outs_of(head[1]) =~= seq![vid(b + 1)]);
    assert(outs_of(head[2]) =~= seq![vid(b + 2)]);
}

/// The part of `well_typed` about an operation of a layer. `keys` are the values of the
/// layer, `b` is where they begin.
spec fn local_typed(op: OpModel, keys: Seq<SpecKey>, b: int) -> bool {
    &&& forall|i: int| 0 <= i < args_of(op).len() ==> arg_typed(#[trigger] args_of(op)[i])
    &&& match op {
        Op::Reshape { shape, out, .. } => b <= out.0 < b + keys.len() && shape == keys[out.0
            - b].shape,
        _ => true,
    }
}

proof fn lemma_layer_typed(p: StepDims, l: usize, b: int)
    requires
        1 <= b,
        b + 60 <= usize::MAX,
    ensures
        forall|k: int|
            0 <= k < layer_ops(p, l, b).len() ==> local_typed(
                #[trigger] layer_ops(p, l, b)[k],
                layer_keys(p),
                b,
            ),
{
    lemma_body_len(p, 0);
    let qkv = qkv_ops(p, l, b - 1, b);
    let heads = heads_ops(p, b + 1, heads_at(p, b));
    let rope = rope_ops(p, l, heads_at(p, b), rope_at(p, b));
    let attention = attention_ops(p, l, b - 1, rope_at(p, b), attention_at(p, b));
    let ff = ff_ops(p, l, attention_at(p, b) + 3, ff_at(p, b));
    let keys = layer_keys(p);
    let all = layer_ops(p, l, b);
    assert forall|k: int| 0 <= k < all.len() implies local_typed(#[trigger] all[k], keys, b) by {
        let at1 = qkv.len() as int;
        let at2 = at1 + heads.len();
        let at3 = at2 + rope.len();
        let at4 = at3 + attention.len();
        if k < at1 {
            assert(all[k] == qkv[k]);
        } else if k < at2 {
            assert(all[k] == heads[k - at1]);
        } else if k < at3 {
            assert(all[k] == rope[k - at2]);
        } else if k < at4 {
            assert(all[k] == attention[k - at3]);
        } else {
            assert(all[k] == ff[k - at4]);
        }
    }
}

/// The part of `well_typed` about an operation on the values `keys` and more.
spec fn front_typed(op: OpModel, keys: Seq<SpecKey>) -> bool {
    local_typed(op, keys, 0)
}

proof fn lemma_body_typed(p: StepDims, l: int)
    requires
        fits(p),
        0 <= l <= p.layers,
    ensures
        forall|k: int|
            0 <= k < body_ops(p, l).len() ==> front_typed(
                #[trigger] body_ops(p, l)[k],
                body_keys(p, l),
            ),
    decreases l,
{
    lemma_body_len(p, l);
    if l > 0 {
        let front = body_ops(p, l - 1);
        let front_keys = body_keys(p, l - 1);
        let b = layer_at(p, l - 1);
        let layer = layer_ops(p, (l - 1) as usize, b);
        let ops = body_ops(p, l);
        let keys = body_keys(p, l);
        lemma_body_typed(p, l - 1);
        lemma_body_len(p, l - 1);
        assert(0 <= (l - 1) * layer_size(p) <= 4096 * 27) by (nonlinear_arith)
            requires
                0 <= l - 1 <= 4096,
                0 <= layer_size(p) <= 27,
        ;
        lemma_layer_typed(p, (l - 1) as usize, b);
        assert forall|k: int| 0 <= k < ops.len() implies front_typed(#[trigger] ops[k], keys) by {
            if k < front.len() {
                assert(ops[k] == front[k]);
                assert(front_typed(front[k], front_keys));
                match ops[k] {
                    Op::Reshape { out, .. } => {
                        assert(keys[out.0 as int] == front_keys[out.0 as int]);
                    },
                    _ => {},
                }
            } else {
                assert(ops[k] == layer[k - front.len()]);
                assert(local_typed(layer[k - front.len()], layer_keys(p), b));
                match ops[k] {
                    Op::Reshape { out, .. } => {
                        assert(keys[out.0 as int] == layer_keys(p)[out.0 - b]);
                    },
                    _ => {},
                }
            }
        }
    }
}

/// A forward step runs to its end on any pool: every operation finds what it reads, and
/// at the end the logits hold a buffer and no other value does.
pub proof fn law_forward_step_runs(
    p: StepDims,
    free: Seq<(SpecKey, usize)>,
    caps: Seq<(SpecKey, usize)>,
    next: int,
    policy: FinalLogitsPolicy,
)
    requires
        fits(p),
        policy !is Taken,
    ensures
        run_ops(
            run_start(
                read_counts(step_ops(p), step_keys(p).len()),
                step_keys(p).len(),
                free,
                next,
                policy,
            ),
            step_ops(p),
            step_ops(p).len(),
            step_keys(p),
            caps,
            step_result(p),
        ) matches Ok(end) && {
            &&& end.slots.len() == step_keys(p).len()
            &&& forall|i: int|
                0 <= i < end.slots.len() ==> (#[trigger] end.slots[i] is Some <==> i
                    == step_result(p).0)
        },
{
    let l = p.layers as int;
    let b = layer_at(p, l);
    let front = body_ops(p, l);
    let front_keys = body_keys(p, l);
    let head = head_ops(p, b);
    let ops = step_ops(p);
    let keys = step_keys(p);
    let result = step_result(p);
    law_forward_step_is_good(p);
    lemma_fits(p);
    lemma_body_len(p, l);
    lemma_body_typed(p, l);
    assert(l * layer_size(p) >= 0) by (nonlinear_arith)
        requires
            l >= 0,
            layer_size(p) >= 0,
    ;
    assert forall|k: int| 0 <= k < ops.len() implies well_typed(#[trigger] ops[k], keys) by {
        if k < front.len() {
            assert(ops[k] == front[k]);
            assert(front_typed(front[k], front_keys));
            match ops[k] {
                Op::Reshape { out, .. } => {
                    assert(keys[out.0 as int] == front_keys[out.0 as int]);
                },
                _ => {},
            }
        } else {
            assert(ops[k] == head[k - front.len()]);
        }
    }
    law_good_step_runs(ops, keys, result, free, caps, next, policy);
    lemma_wrote(ops, ops.len() - 1, 0, ops.len() as int);
    assert(outs_of(ops[ops.len() - 1])[0] == result) by {
        assert(ops[ops.len() - 1] == head[2]);
    }
    let end = run_ops(
        run_start(read_counts(ops, keys.len()), keys.len(), free, next, policy),
        ops,
        ops.len(),
        keys,
        caps,
        result,
    )->Ok_0;
    assert forall|i: int| 0 <= i < end.slots.len() implies (#[trigger] end.slots[i] is Some <==> i
        == result.0) by {
        if i != result.0 && end.slots[i] is Some {
            let v = ValueId(i as usize);
            assert(reads(ops, ops.len(), v) == 0);
        }
    }
}

} // verus!
