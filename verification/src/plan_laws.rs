//! What holds of every planned step.
use crate::graph::{inputs_of, outs_of, Op, OpModel, SpecKey, TensorRef, ValueId};
use crate::names::{bind, distinct, law_bind_lookup, lemma_position, position};
use crate::pool_plan::{
    count, dec, hand_over, hold, hold_new, hold_outs, inc, lemma_dec, lemma_inc, op_in_range,
    plan_op, plan_ops, plan_start, plannable, raise, read_all, read_one, write_op, GraphError,
    PlanState,
};
use crate::step_graph::{occurrences, read_counts, reads, shared_reshape, step_check};
use vstd::prelude::*;

verus! {

/// No kind is live more often than its peak, and no more bytes are live than the
/// high-water mark.
pub open spec fn covered(st: PlanState) -> bool {
    &&& distinct(st.live)
    &&& forall|k: SpecKey| #[trigger] count(st.live, k) <= count(st.peak, k)
    &&& st.total <= st.high
}

/// Peaks and high-water mark only grow.
pub open spec fn grown(a: PlanState, b: PlanState) -> bool {
    &&& forall|k: SpecKey| #[trigger] count(a.peak, k) <= count(b.peak, k)
    &&& a.high <= b.high
}

proof fn lemma_raise(s: Seq<(SpecKey, usize)>, k: SpecKey, n: int)
    requires
        0 <= n <= usize::MAX,
    ensures
        forall|o: SpecKey| #[trigger]
            count(raise(s, k, n), o) == if o == k {
                if count(s, k) > n {
                    count(s, k)
                } else {
                    n
                }
            } else {
                count(s, o)
            },
{
    let m = if count(s, k) > n {
        count(s, k) as usize
    } else {
        n as usize
    };
    assert forall|o: SpecKey| #[trigger] count(raise(s, k, n), o) == if o == k {
        if count(s, k) > n {
            count(s, k)
        } else {
            n
        }
    } else {
        count(s, o)
    } by {
        law_bind_lookup(s, k, m, o);
    }
}

proof fn lemma_hold_covered(st: PlanState, v: ValueId, k: SpecKey)
    requires
        covered(st),
        count(st.live, k) < usize::MAX,
    ensures
        covered(hold(st, v, k)),
        grown(st, hold(st, v, k)),
        covered(hold_new(st, v, k)),
        grown(st, hold_new(st, v, k)),
{
    lemma_inc(st.live, k);
    lemma_raise(st.peak, k, count(st.live, k) + 1);
    let a = hold(st, v, k);
    assert forall|o: SpecKey| #[trigger] count(a.live, o) <= count(a.peak, o) by {
        assert(count(st.live, o) <= count(st.peak, o));
    }
    let b = hold_new(st, v, k);
    assert(b.live == a.live && b.peak == a.peak);
    assert forall|o: SpecKey| #[trigger] count(st.peak, o) <= count(b.peak, o) by {}
}

proof fn lemma_release_covered(st: PlanState, next: PlanState, k: SpecKey)
    requires
        covered(st),
        dec(st.live, k) == Some(next.live),
        next.peak == st.peak,
        next.high == st.high,
        next.total <= st.total,
    ensures
        covered(next),
        grown(st, next),
{
    lemma_dec(st.live, k);
    assert forall|o: SpecKey| #[trigger] count(next.live, o) <= count(next.peak, o) by {
        assert(count(st.live, o) <= count(st.peak, o));
    }
}

/// The counts of a state stay far below the greatest number.
pub open spec fn roomy(st: PlanState, most: int) -> bool {
    forall|k: SpecKey| #[trigger] count(st.live, k) <= most
}

proof fn lemma_hold_outs_covered(
    st: PlanState,
    outs: Seq<ValueId>,
    keys: Seq<SpecKey>,
    result: ValueId,
    most: int,
)
    requires
        covered(st),
        roomy(st, most),
        most + outs.len() <= usize::MAX,
    ensures
        covered(hold_outs(st, outs, keys, result)),
        grown(st, hold_outs(st, outs, keys, result)),
        roomy(hold_outs(st, outs, keys, result), most + outs.len()),
    decreases outs.len(),
{
    if outs.len() > 0 {
        lemma_hold_outs_covered(st, outs.drop_last(), keys, result, most);
        let before = hold_outs(st, outs.drop_last(), keys, result);
        let next = hold_outs(st, outs, keys, result);
        if outs.last() != result {
            let k = keys[outs.last().0 as int];
            assert(count(before.live, k) <= most + outs.len() - 1);
            lemma_hold_covered(before, outs.last(), k);
            lemma_inc(before.live, k);
            assert forall|o: SpecKey| #[trigger] count(next.live, o) <= most + outs.len() by {
                assert(count(before.live, o) <= most + outs.len() - 1);
            }
            assert forall|o: SpecKey| #[trigger] count(st.peak, o) <= count(next.peak, o) by {
                assert(count(st.peak, o) <= count(before.peak, o));
                assert(count(before.peak, o) <= count(next.peak, o));
            }
        } else {
            assert forall|o: SpecKey| #[trigger] count(next.live, o) <= most + outs.len() by {
                assert(count(before.live, o) <= most + outs.len() - 1);
            }
        }
    }
}

proof fn lemma_read_covered(st: PlanState, ins: Seq<ValueId>, result: ValueId, most: int)
    requires
        covered(st),
        roomy(st, most),
        st.total >= 0,
        forall|i: int|
            0 <= i < st.slots.len() ==> ((#[trigger] st.slots[i]) matches Some(k) ==> k.bytes()
                >= 0),
    ensures
        read_all(st, ins, result) matches Ok(next) ==> covered(next) && grown(st, next) && roomy(
            next,
            most,
        ) && next.total >= 0,
    decreases ins.len(),
{
    if ins.len() > 0 {
        lemma_read_covered(st, ins.drop_last(), result, most);
        match read_all(st, ins.drop_last(), result) {
            Ok(before) => {
                let v = ins.last();
                match read_one(before, v, result) {
                    Ok(next) => {
                        if next.live != before.live || next.total != before.total {
                            let k = before.slots[v.0 as int]->0;
                            assert(k.bytes() >= 0);
                            lemma_release_covered(before, next, k);
                            lemma_dec(before.live, k);
                            assert forall|o: SpecKey| #[trigger]
                                count(next.live, o) <= most by {
                                assert(count(before.live, o) <= most);
                            }
                        }
                        assert forall|o: SpecKey| #[trigger]
                            count(st.peak, o) <= count(next.peak, o) by {
                            assert(count(st.peak, o) <= count(before.peak, o));
                        }
                    },
                    Err(_) => {},
                }
            },
            Err(_) => {},
        }
    }
}

proof fn lemma_write_covered(
    st: PlanState,
    op: OpModel,
    keys: Seq<SpecKey>,
    result: ValueId,
    most: int,
)
    requires
        covered(st),
        roomy(st, most),
        st.total >= 0,
        0 <= most,
        most + 2 <= usize::MAX,
    ensures
        write_op(st, op, keys, result) matches Ok(next) ==> covered(next) && grown(st, next)
            && roomy(next, most + 2) && next.total >= 0,
{
    match op {
        Op::Reshape { input, out, .. } => {
            match input {
                TensorRef::Value(v) => {
                    match hand_over(st, v, out, keys, result) {
                        Ok(next) => {
                            let src = st.slots[v.0 as int]->0;
                            let taken = PlanState {
                                live: dec(st.live, src)->0,
                                slots: st.slots.update(v.0 as int, None),
                                ..st
                            };
                            lemma_release_covered(st, taken, src);
                            lemma_dec(st.live, src);
                            let dst = keys[out.0 as int];
                            assert(count(st.live, dst) <= most);
                            assert forall|o: SpecKey| #[trigger]
                                count(taken.live, o) <= most by {
                                assert(count(st.live, o) <= most);
                            }
                            if out != result {
                                lemma_hold_covered(taken, out, dst);
                                lemma_inc(taken.live, dst);
                            }
                            assert forall|o: SpecKey| #[trigger]
                                count(next.live, o) <= most + 2 by {
                                assert(count(taken.live, o) <= most);
                            }
                            assert forall|o: SpecKey| #[trigger]
                                count(st.peak, o) <= count(next.peak, o) by {
                                assert(count(st.peak, o) <= count(taken.peak, o));
                                assert(count(taken.peak, o) <= count(next.peak, o));
                            }
                        },
                        Err(_) => {},
                    }
                },
                TensorRef::Weight(_) => {},
            }
        },
        _ => {
            let outs = outs_of(op);
            assert(outs.len() <= 2);
            lemma_hold_outs_covered(st, outs, keys, result, most);
            lemma_hold_outs_total(st, outs, keys, result);
            let next = hold_outs(st, outs, keys, result);
            assert forall|o: SpecKey| #[trigger] count(next.live, o) <= most + 2 by {
                assert(count(next.live, o) <= most + outs.len());
            }
        },
    }
}

proof fn lemma_hold_outs_total(
    st: PlanState,
    outs: Seq<ValueId>,
    keys: Seq<SpecKey>,
    result: ValueId,
)
    requires
        st.total >= 0,
    ensures
        hold_outs(st, outs, keys, result).total >= 0,
    decreases outs.len(),
{
    if outs.len() > 0 {
        lemma_hold_outs_total(st, outs.drop_last(), keys, result);
    }
}

/// At the end of a plan its peaks cover every moment before: after any operation, no
/// kind was live more often than its peak says, and no more bytes were live than the
/// high-water mark says.
pub proof fn law_plan_covers_every_moment(
    ops: Seq<OpModel>,
    j: nat,
    n: nat,
    keys: Seq<SpecKey>,
    uses: Seq<usize>,
    result: ValueId,
)
    requires
        j <= n <= ops.len(),
        2 * ops.len() <= usize::MAX,
    ensures
        plan_ops(ops, n, keys, uses, result) matches Ok(end) ==> (plan_ops(
            ops,
            j,
            keys,
            uses,
            result,
        ) matches Ok(st) && st.total <= end.high && forall|k: SpecKey| #[trigger]
            count(st.live, k) <= count(end.peak, k)),
{
    lemma_plan_grows(ops, j, n, keys, uses, result);
    match plan_ops(ops, n, keys, uses, result) {
        Ok(end) => {
            let st = plan_ops(ops, j, keys, uses, result)->Ok_0;
            assert forall|k: SpecKey| #[trigger] count(st.live, k) <= count(end.peak, k) by {
                assert(count(st.live, k) <= count(st.peak, k));
                assert(count(st.peak, k) <= count(end.peak, k));
            }
        },
        Err(_) => {},
    }
}

proof fn lemma_plan_grows(
    ops: Seq<OpModel>,
    j: nat,
    n: nat,
    keys: Seq<SpecKey>,
    uses: Seq<usize>,
    result: ValueId,
)
    requires
        j <= n <= ops.len(),
        2 * ops.len() <= usize::MAX,
    ensures
        plan_ops(ops, n, keys, uses, result) matches Ok(end) ==> {
            &&& plan_ops(ops, j, keys, uses, result) matches Ok(st) && covered(st) && grown(st, end)
            &&& covered(end)
            &&& roomy(end, 2 * n as int)
            &&& end.total >= 0
        },
    decreases n,
{
    if n == 0 {
        let st = plan_start(uses, keys.len());
        assert forall|o: SpecKey| #[trigger] count(st.live, o) <= 0 by {}
        assert forall|o: SpecKey| #[trigger] count(st.live, o) <= count(st.peak, o) by {}
    } else {
        let m = (n - 1) as nat;
        let i = if j < n {
            j
        } else {
            m
        };
        lemma_plan_grows(ops, i, m, keys, uses, result);
        lemma_plan_grows(ops, m, m, keys, uses, result);
        match plan_ops(ops, m, keys, uses, result) {
            Ok(st) => {
                let op = ops[n - 1];
                lemma_write_covered(st, op, keys, result, 2 * m as int);
                match write_op(st, op, keys, result) {
                    Ok(mid) => {
                        lemma_read_covered(mid, inputs_of(op), result, 2 * n as int);
                        match read_all(mid, inputs_of(op), result) {
                            Ok(end) => {
                                let first = plan_ops(ops, i, keys, uses, result)->Ok_0;
                                assert forall|o: SpecKey| #[trigger]
                                    count(first.peak, o) <= count(end.peak, o) by {
                                    assert(count(first.peak, o) <= count(st.peak, o));
                                    assert(count(st.peak, o) <= count(mid.peak, o));
                                    assert(count(mid.peak, o) <= count(end.peak, o));
                                }
                            },
                            Err(_) => {},
                        }
                    },
                    Err(_) => {},
                }
            },
            Err(_) => {},
        }
    }
}

/// Bytes of the counted buffers together.
pub open spec fn listed_bytes(s: Seq<(SpecKey, usize)>) -> int
    decreases s.len(),
{
    if s.len() == 0 {
        0
    } else {
        listed_bytes(s.drop_last()) + s.last().1 * s.last().0.bytes()
    }
}

proof fn lemma_listed_push(s: Seq<(SpecKey, usize)>, e: (SpecKey, usize))
    ensures
        listed_bytes(s.push(e)) == listed_bytes(s) + e.1 * e.0.bytes(),
{
    assert(s.push(e).drop_last() =~= s);
}

proof fn lemma_listed_update(s: Seq<(SpecKey, usize)>, i: int, e: (SpecKey, usize))
    requires
        0 <= i < s.len(),
    ensures
        listed_bytes(s.update(i, e)) == listed_bytes(s) - s[i].1 * s[i].0.bytes() + e.1
            * e.0.bytes(),
    decreases s.len(),
{
    let t = s.update(i, e);
    if i == s.len() - 1 {
        assert(t.drop_last() =~= s.drop_last());
    } else {
        lemma_listed_update(s.drop_last(), i, e);
        assert(t.drop_last() =~= s.drop_last().update(i, e));
        assert(t.last() == s.last());
    }
}

proof fn lemma_listed_remove(s: Seq<(SpecKey, usize)>, i: int)
    requires
        0 <= i < s.len(),
    ensures
        listed_bytes(s.remove(i)) == listed_bytes(s) - s[i].1 * s[i].0.bytes(),
    decreases s.len(),
{
    let t = s.remove(i);
    if i == s.len() - 1 {
        assert(t =~= s.drop_last());
    } else {
        lemma_listed_remove(s.drop_last(), i);
        assert(t.drop_last() =~= s.drop_last().remove(i));
        assert(t.last() == s.last());
    }
}

proof fn lemma_listed_bind(s: Seq<(SpecKey, usize)>, k: SpecKey, n: usize)
    ensures
        listed_bytes(bind(s, k, n)) == listed_bytes(s) - count(s, k) * k.bytes() + n * k.bytes(),
{
    lemma_position(s, k);
    let p = position(s, k);
    if p < s.len() {
        lemma_listed_update(s, p as int, (k, n));
    } else {
        lemma_listed_push(s, (k, n));
    }
}

proof fn lemma_listed_inc(s: Seq<(SpecKey, usize)>, k: SpecKey)
    requires
        count(s, k) < usize::MAX,
    ensures
        listed_bytes(inc(s, k)) == listed_bytes(s) + k.bytes(),
{
    lemma_listed_bind(s, k, (count(s, k) + 1) as usize);
    let c = count(s, k);
    let b = k.bytes();
    assert((c + 1) * b == c * b + b) by (nonlinear_arith);
}

proof fn lemma_listed_dec(s: Seq<(SpecKey, usize)>, k: SpecKey)
    requires
        dec(s, k) is Some,
    ensures
        listed_bytes(dec(s, k)->0) == listed_bytes(s) - k.bytes(),
{
    lemma_position(s, k);
    let c = count(s, k);
    let b = k.bytes();
    if c == 1 {
        lemma_listed_remove(s, position(s, k) as int);
    } else {
        lemma_listed_bind(s, k, (c - 1) as usize);
        assert((c - 1) * b == c * b - b) by (nonlinear_arith);
    }
}

proof fn lemma_listed_nonneg(s: Seq<(SpecKey, usize)>)
    ensures
        listed_bytes(s) >= 0,
    decreases s.len(),
{
    if s.len() > 0 {
        lemma_listed_nonneg(s.drop_last());
        let n = s.last().1;
        let b = s.last().0.bytes();
        assert(n * b >= 0) by (nonlinear_arith)
            requires
                n >= 0,
                b >= 0,
        ;
    }
}

/// No reshape writes the result of the step.
pub open spec fn result_is_computed(ops: Seq<OpModel>, result: ValueId) -> bool {
    forall|i: int|
        0 <= i < ops.len() ==> (#[trigger] ops[i] matches Op::Reshape { out, .. } ==> out != result)
}

/// The live buffers have the bytes that are counted as live, and those of the
/// high-water moment the bytes of the high-water mark.
pub open spec fn accounted(st: PlanState) -> bool {
    &&& listed_bytes(st.live) == st.total
    &&& listed_bytes(st.high_live) == st.high
}

proof fn lemma_hold_outs_accounted(
    st: PlanState,
    outs: Seq<ValueId>,
    keys: Seq<SpecKey>,
    result: ValueId,
    most: int,
)
    requires
        accounted(st),
        covered(st),
        roomy(st, most),
        most + outs.len() <= usize::MAX,
    ensures
        accounted(hold_outs(st, outs, keys, result)),
    decreases outs.len(),
{
    if outs.len() > 0 {
        lemma_hold_outs_accounted(st, outs.drop_last(), keys, result, most);
        lemma_hold_outs_covered(st, outs.drop_last(), keys, result, most);
        let before = hold_outs(st, outs.drop_last(), keys, result);
        if outs.last() != result {
            let k = keys[outs.last().0 as int];
            assert(count(before.live, k) <= most + outs.len() - 1);
            lemma_listed_inc(before.live, k);
        }
    }
}

proof fn lemma_read_accounted(st: PlanState, ins: Seq<ValueId>, result: ValueId)
    requires
        accounted(st),
    ensures
        read_all(st, ins, result) matches Ok(next) ==> accounted(next),
    decreases ins.len(),
{
    if ins.len() > 0 {
        lemma_read_accounted(st, ins.drop_last(), result);
        match read_all(st, ins.drop_last(), result) {
            Ok(before) => {
                let v = ins.last();
                match read_one(before, v, result) {
                    Ok(next) => {
                        match before.slots[v.0 as int] {
                            Some(k) => {
                                if before.remaining[v.0 as int] == 1 && v != result {
                                    lemma_listed_dec(before.live, k);
                                    lemma_listed_nonneg(next.live);
                                }
                            },
                            None => {},
                        }
                    },
                    Err(_) => {},
                }
            },
            Err(_) => {},
        }
    }
}

proof fn lemma_write_accounted(
    st: PlanState,
    op: OpModel,
    keys: Seq<SpecKey>,
    result: ValueId,
    most: int,
)
    requires
        accounted(st),
        covered(st),
        roomy(st, most),
        0 <= most,
        most + 2 <= usize::MAX,
        op matches Op::Reshape { out, .. } ==> out != result,
    ensures
        write_op(st, op, keys, result) matches Ok(next) ==> accounted(next),
{
    match op {
        Op::Reshape { input, out, .. } => {
            match input {
                TensorRef::Value(v) => {
                    match hand_over(st, v, out, keys, result) {
                        Ok(_) => {
                            let src = st.slots[v.0 as int]->0;
                            let dst = keys[out.0 as int];
                            let live = dec(st.live, src)->0;
                            lemma_listed_dec(st.live, src);
                            lemma_dec(st.live, src);
                            assert(count(st.live, dst) <= most);
                            lemma_listed_inc(live, dst);
                        },
                        Err(_) => {},
                    }
                },
                TensorRef::Weight(_) => {},
            }
        },
        _ => {
            assert(outs_of(op).len() <= 2);
            lemma_hold_outs_accounted(st, outs_of(op), keys, result, most);
        },
    }
}

/// The buffers that a plan lists for its high-water moment have together exactly the
/// bytes of its high-water mark, where the result of the step is not a reshape.
pub proof fn law_high_water_is_listed(
    ops: Seq<OpModel>,
    n: nat,
    keys: Seq<SpecKey>,
    uses: Seq<usize>,
    result: ValueId,
)
    requires
        n <= ops.len(),
        2 * ops.len() <= usize::MAX,
        result_is_computed(ops, result),
    ensures
        plan_ops(ops, n, keys, uses, result) matches Ok(st) ==> listed_bytes(st.high_live)
            == st.high,
{
    lemma_plan_accounted(ops, n, keys, uses, result);
}

proof fn lemma_plan_accounted(
    ops: Seq<OpModel>,
    n: nat,
    keys: Seq<SpecKey>,
    uses: Seq<usize>,
    result: ValueId,
)
    requires
        n <= ops.len(),
        2 * ops.len() <= usize::MAX,
        result_is_computed(ops, result),
    ensures
        plan_ops(ops, n, keys, uses, result) matches Ok(st) ==> accounted(st),
    decreases n,
{
    if n > 0 {
        let m = (n - 1) as nat;
        lemma_plan_accounted(ops, m, keys, uses, result);
        lemma_plan_grows(ops, m, m, keys, uses, result);
        match plan_ops(ops, m, keys, uses, result) {
            Ok(st) => {
                let op = ops[n - 1];
                lemma_write_accounted(st, op, keys, result, 2 * m as int);
                match write_op(st, op, keys, result) {
                    Ok(mid) => {
                        lemma_read_accounted(mid, inputs_of(op), result);
                    },
                    Err(_) => {},
                }
            },
            Err(_) => {},
        }
    }
}

/// How often the first `k` operations write `v`.
pub open spec fn writes(ops: Seq<OpModel>, k: nat, v: ValueId) -> nat
    decreases k,
{
    if k == 0 {
        0
    } else {
        writes(ops, (k - 1) as nat, v) + occurrences(outs_of(ops[k - 1]), v)
    }
}

/// Every value is written at most once and before it is read; nothing reads the
/// result; a reshape reads a value that nothing else reads, keeps its element count
/// and does not write the result.
pub open spec fn good_step(ops: Seq<OpModel>, keys: Seq<SpecKey>, result: ValueId) -> bool {
    &&& plannable(ops, keys, read_counts(ops, keys.len()), result)
    &&& result.0 < keys.len() <= usize::MAX
    &&& forall|v: ValueId| #[trigger] writes(ops, ops.len(), v) <= 1
    &&& forall|k: int, i: int|
        0 <= k < ops.len() && 0 <= i < inputs_of(ops[k]).len() ==> writes(
            ops,
            k as nat,
            #[trigger] inputs_of(ops[k])[i],
        ) >= 1
    &&& reads(ops, ops.len(), result) == 0
    &&& forall|k: int| 0 <= k < ops.len() ==> good_reshape(#[trigger] ops[k], ops, keys, result)
}

/// The part of `good_step` about one reshape.
pub open spec fn good_reshape(
    op: OpModel,
    ops: Seq<OpModel>,
    keys: Seq<SpecKey>,
    result: ValueId,
) -> bool {
    match op {
        Op::Reshape { input, out, .. } => match input {
            TensorRef::Value(v) => {
                &&& out != result
                &&& reads(ops, ops.len(), v) == 1
                &&& keys[v.0 as int].numel() == keys[out.0 as int].numel()
            },
            TensorRef::Weight(_) => false,
        },
        _ => true,
    }
}

pub proof fn lemma_reads_monotonic(ops: Seq<OpModel>, a: nat, b: nat, v: ValueId)
    requires
        a <= b,
    ensures
        reads(ops, a, v) <= reads(ops, b, v),
    decreases b,
{
    if a < b {
        lemma_reads_monotonic(ops, a, (b - 1) as nat, v);
    }
}

proof fn lemma_writes_monotonic(ops: Seq<OpModel>, a: nat, b: nat, v: ValueId)
    requires
        a <= b,
    ensures
        writes(ops, a, v) <= writes(ops, b, v),
    decreases b,
{
    if a < b {
        lemma_writes_monotonic(ops, a, (b - 1) as nat, v);
    }
}

pub proof fn lemma_occurrences_at(s: Seq<ValueId>, i: int)
    requires
        0 <= i < s.len(),
    ensures
        occurrences(s, s[i]) >= 1,
    decreases s.len(),
{
    if i < s.len() - 1 {
        lemma_occurrences_at(s.drop_last(), i);
    }
}

proof fn lemma_occurrences_index(s: Seq<ValueId>, v: ValueId) -> (i: int)
    requires
        occurrences(s, v) >= 1,
    ensures
        0 <= i < s.len() && s[i] == v,
    decreases s.len(),
{
    if s.last() == v {
        s.len() - 1
    } else {
        lemma_occurrences_index(s.drop_last(), v)
    }
}

proof fn lemma_occurrences_prefix(s: Seq<ValueId>, p: int, v: ValueId)
    requires
        0 <= p <= s.len(),
    ensures
        occurrences(s.subrange(0, p), v) <= occurrences(s, v),
    decreases s.len() - p,
{
    if p < s.len() {
        lemma_occurrences_prefix(s, p + 1, v);
        assert(s.subrange(0, p + 1).drop_last() =~= s.subrange(0, p));
    } else {
        assert(s.subrange(0, p) =~= s);
    }
}

/// What was read was written before.
proof fn lemma_read_is_written(
    ops: Seq<OpModel>,
    keys: Seq<SpecKey>,
    result: ValueId,
    k: nat,
    v: ValueId,
)
    requires
        good_step(ops, keys, result),
        k <= ops.len(),
        reads(ops, k, v) >= 1,
    ensures
        writes(ops, k, v) >= 1,
    decreases k,
{
    if k > 0 {
        let m = (k - 1) as nat;
        if reads(ops, m, v) >= 1 {
            lemma_read_is_written(ops, keys, result, m, v);
        } else {
            let i = lemma_occurrences_index(inputs_of(ops[k - 1]), v);
            assert(writes(ops, m, inputs_of(ops[m as int])[i]) >= 1);
        }
    }
}

/// Values that hold a buffer of kind `k`.
pub open spec fn slot_count(slots: Seq<Option<SpecKey>>, k: SpecKey) -> int
    decreases slots.len(),
{
    if slots.len() == 0 {
        0
    } else {
        slot_count(slots.drop_last(), k) + if slots.last() == Some(k) {
            1int
        } else {
            0
        }
    }
}

proof fn lemma_slot_update(
    slots: Seq<Option<SpecKey>>,
    i: int,
    x: Option<SpecKey>,
    k: SpecKey,
)
    requires
        0 <= i < slots.len(),
    ensures
        slot_count(slots.update(i, x), k) == slot_count(slots, k) - (if slots[i] == Some(k) {
            1int
        } else {
            0
        }) + (if x == Some(k) {
            1int
        } else {
            0
        }),
    decreases slots.len(),
{
    let t = slots.update(i, x);
    if i == slots.len() - 1 {
        assert(t.drop_last() =~= slots.drop_last());
    } else {
        lemma_slot_update(slots.drop_last(), i, x, k);
        assert(t.drop_last() =~= slots.drop_last().update(i, x));
        assert(t.last() == slots.last());
    }
}

proof fn lemma_slot_nonneg(slots: Seq<Option<SpecKey>>, k: SpecKey)
    ensures
        slot_count(slots, k) >= 0,
    decreases slots.len(),
{
    if slots.len() > 0 {
        lemma_slot_nonneg(slots.drop_last(), k);
    }
}

proof fn lemma_slot_some(slots: Seq<Option<SpecKey>>, i: int, k: SpecKey)
    requires
        0 <= i < slots.len(),
        slots[i] == Some(k),
    ensures
        slot_count(slots, k) >= 1,
    decreases slots.len(),
{
    lemma_slot_nonneg(slots.drop_last(), k);
    if i < slots.len() - 1 {
        lemma_slot_some(slots.drop_last(), i, k);
    }
}

proof fn lemma_slots_none(slots: Seq<Option<SpecKey>>, k: SpecKey)
    requires
        forall|i: int| 0 <= i < slots.len() ==> (#[trigger] slots[i]) is None,
    ensures
        slot_count(slots, k) == 0,
    decreases slots.len(),
{
    if slots.len() > 0 {
        lemma_slots_none(slots.drop_last(), k);
    }
}

/// The counts of live buffers are those of the values that hold one.
pub open spec fn counts_match(st: PlanState) -> bool {
    &&& distinct(st.live)
    &&& forall|k: SpecKey| #[trigger] count(st.live, k) == slot_count(st.slots, k)
}

/// Whether value `v` holds a buffer when `written` says how often it was written,
/// `all` how often it is read in the step and `left` how often it will still be read:
/// it was written, is not the result, and a read is still to come (or none ever is).
pub open spec fn holds(v: ValueId, result: ValueId, written: nat, all: nat, left: int) -> bool {
    written >= 1 && v != result && !(all > 0 && left == 0)
}

/// Where planning stands after `k` operations of a good step and the first `p` reads
/// of the next; `written` is how many operations have written.
pub open spec fn at_moment(
    st: PlanState,
    ops: Seq<OpModel>,
    keys: Seq<SpecKey>,
    result: ValueId,
    k: nat,
    ins: Seq<ValueId>,
    written: nat,
) -> bool {
    &&& st.slots.len() == keys.len()
    &&& st.remaining.len() == keys.len()
    &&& counts_match(st)
    &&& forall|i: int|
        0 <= i < keys.len() ==> #[trigger] value_at_moment(
            st,
            ops,
            keys,
            result,
            k,
            ins,
            written,
            i,
        )
}

/// The part of `at_moment` about the value in place `i`.
pub open spec fn value_at_moment(
    st: PlanState,
    ops: Seq<OpModel>,
    keys: Seq<SpecKey>,
    result: ValueId,
    k: nat,
    ins: Seq<ValueId>,
    written: nat,
    i: int,
) -> bool {
    let v = ValueId(i as usize);
    let all = reads(ops, ops.len(), v);
    let left = all - reads(ops, k, v) - occurrences(ins, v);
    &&& st.remaining[i] == left
    &&& st.slots[i] == if holds(v, result, writes(ops, written, v), all, left) {
        Some(keys[i])
    } else {
        None
    }
}

proof fn lemma_hold_outs_slots(
    st: PlanState,
    outs: Seq<ValueId>,
    keys: Seq<SpecKey>,
    result: ValueId,
    most: int,
)
    requires
        st.slots.len() == keys.len(),
        keys.len() <= usize::MAX,
        counts_match(st),
        roomy(st, most),
        most + outs.len() <= usize::MAX,
        forall|i: int| 0 <= i < outs.len() ==> (#[trigger] outs[i]).0 < keys.len(),
        forall|i: int|
            0 <= i < outs.len() ==> st.slots[(#[trigger] outs[i]).0 as int] is None || outs[i]
                == result,
        forall|i: int, j: int| 0 <= i < j < outs.len() ==> #[trigger] outs[i] != #[trigger] outs[j],
    ensures
        hold_outs(st, outs, keys, result).slots.len() == keys.len(),
        hold_outs(st, outs, keys, result).remaining == st.remaining,
        counts_match(hold_outs(st, outs, keys, result)),
        roomy(hold_outs(st, outs, keys, result), most + outs.len()),
        forall|i: int|
            0 <= i < keys.len() ==> #[trigger] hold_outs(st, outs, keys, result).slots[i] == if (
            outs.contains(ValueId(i as usize)) && ValueId(i as usize) != result) {
                Some(keys[i])
            } else {
                st.slots[i]
            },
    decreases outs.len(),
{
    let next = hold_outs(st, outs, keys, result);
    if outs.len() == 0 {
        assert forall|i: int| 0 <= i < keys.len() implies #[trigger] next.slots[i] == if (
        outs.contains(ValueId(i as usize)) && ValueId(i as usize) != result) {
            Some(keys[i])
        } else {
            st.slots[i]
        } by {}
    } else {
        let head = outs.drop_last();
        assert forall|i: int| 0 <= i < head.len() implies (#[trigger] head[i]).0 < keys.len() by {
            assert(head[i] == outs[i]);
        }
        assert forall|i: int| 0 <= i < head.len() implies st.slots[(
        #[trigger] head[i]).0 as int] is None || head[i] == result by {
            assert(head[i] == outs[i]);
        }
        assert forall|i: int, j: int| 0 <= i < j < head.len() implies #[trigger] head[i]
            != #[trigger] head[j] by {
            assert(head[i] == outs[i] && head[j] == outs[j]);
        }
        lemma_hold_outs_slots(st, head, keys, result, most);
        let before = hold_outs(st, head, keys, result);
        let v = outs.last();
        let vi = v.0 as int;
        let k = keys[vi];
        assert(v == outs[outs.len() - 1]);
        assert(!head.contains(v)) by {
            if head.contains(v) {
                let j = choose|j: int| 0 <= j < head.len() && head[j] == v;
                assert(outs[j] == head[j]);
            }
        }
        assert(v == ValueId(v.0));
        if v != result {
            assert(before.slots[vi] == st.slots[vi]);
            assert(before.slots[vi] is None);
            assert(count(before.live, k) <= most + head.len());
            lemma_inc(before.live, k);
            assert forall|o: SpecKey| #[trigger] count(next.live, o) == slot_count(
                next.slots,
                o,
            ) by {
                lemma_slot_update(before.slots, vi, Some(k), o);
                assert(count(before.live, o) == slot_count(before.slots, o));
            }
            assert forall|o: SpecKey| #[trigger] count(next.live, o) <= most + outs.len() by {
                assert(count(before.live, o) <= most + head.len());
            }
        } else {
            assert forall|o: SpecKey| #[trigger] count(next.live, o) <= most + outs.len() by {
                assert(count(before.live, o) <= most + head.len());
            }
        }
        assert forall|i: int| 0 <= i < keys.len() implies #[trigger] next.slots[i] == if (
        outs.contains(ValueId(i as usize)) && ValueId(i as usize) != result) {
            Some(keys[i])
        } else {
            st.slots[i]
        } by {
            let x = ValueId(i as usize);
            assert(before.slots[i] == if (head.contains(x) && x != result) {
                Some(keys[i])
            } else {
                st.slots[i]
            });
            if outs.contains(x) && x != v {
                let j = choose|j: int| 0 <= j < outs.len() && outs[j] == x;
                assert(head[j] == x);
            }
            if head.contains(x) {
                let j = choose|j: int| 0 <= j < head.len() && head[j] == x;
                assert(outs[j] == x);
            }
            if x == v {
                assert(outs[outs.len() - 1] == x);
                assert(i == vi);
            } else {
                assert(i != vi);
            }
        }
    }
}

/// Reading one input of a good step succeeds.
proof fn lemma_good_read_one(
    st: PlanState,
    ops: Seq<OpModel>,
    keys: Seq<SpecKey>,
    result: ValueId,
    k: nat,
    ins: Seq<ValueId>,
    v: ValueId,
)
    requires
        keys.len() <= usize::MAX,
        at_moment(st, ops, keys, result, k, ins, (k + 1) as nat),
        v.0 < keys.len(),
        v != result,
        reads(ops, ops.len(), v) - reads(ops, k, v) - occurrences(ins, v) >= 1,
    ensures
        read_one(st, v, result) matches Ok(next) && at_moment(
            next,
            ops,
            keys,
            result,
            k,
            ins.push(v),
            (k + 1) as nat,
        ),
{
    let vi = v.0 as int;
    let left = st.remaining[vi];
    assert(ValueId(vi as usize) == v);
    assert(value_at_moment(st, ops, keys, result, k, ins, (k + 1) as nat, vi));
    match st.slots[vi] {
        Some(key) => {
            if left == 1 {
                lemma_slot_some(st.slots, vi, key);
                assert(count(st.live, key) == slot_count(st.slots, key));
                lemma_dec(st.live, key);
                let next = read_one(st, v, result)->Ok_0;
                assert forall|o: SpecKey| #[trigger] count(next.live, o) == slot_count(
                    next.slots,
                    o,
                ) by {
                    lemma_slot_update(st.slots, vi, None, o);
                    assert(count(st.live, o) == slot_count(st.slots, o));
                }
            }
        },
        None => {},
    }
    let next = read_one(st, v, result)->Ok_0;
    assert(ins.push(v).drop_last() =~= ins);
    assert forall|i: int| 0 <= i < keys.len() implies #[trigger] value_at_moment(
        next,
        ops,
        keys,
        result,
        k,
        ins.push(v),
        (k + 1) as nat,
        i,
    ) by {
        let x = ValueId(i as usize);
        assert(value_at_moment(st, ops, keys, result, k, ins, (k + 1) as nat, i));
        assert((x == v) == (i == vi));
    }
}

/// Reading the inputs of an operation of a good step succeeds.
proof fn lemma_good_reads(
    st: PlanState,
    ops: Seq<OpModel>,
    keys: Seq<SpecKey>,
    result: ValueId,
    k: nat,
    p: int,
)
    requires
        good_step(ops, keys, result),
        k < ops.len(),
        0 <= p <= inputs_of(ops[k as int]).len(),
        at_moment(st, ops, keys, result, k, Seq::empty(), (k + 1) as nat),
    ensures
        read_all(st, inputs_of(ops[k as int]).subrange(0, p), result) matches Ok(next)
            && at_moment(
            next,
            ops,
            keys,
            result,
            k,
            inputs_of(ops[k as int]).subrange(0, p),
            (k + 1) as nat,
        ),
    decreases p,
{
    let ins = inputs_of(ops[k as int]);
    if p == 0 {
        assert(ins.subrange(0, 0) =~= Seq::empty());
    } else {
        lemma_good_reads(st, ops, keys, result, k, p - 1);
        let head = ins.subrange(0, p - 1);
        let next = ins.subrange(0, p);
        assert(next.drop_last() =~= head);
        let v = ins[p - 1];
        assert(next.last() == v);
        assert(head.push(v) =~= next);
        let mid = read_all(st, head, result)->Ok_0;
        assert(op_in_range(ops[k as int], keys.len()));
        lemma_reads_monotonic(ops, (k + 1) as nat, ops.len(), v);
        lemma_occurrences_prefix(ins, p, v);
        lemma_reads_monotonic(ops, (k + 1) as nat, ops.len(), result);
        lemma_occurrences_at(ins, p - 1);
        lemma_good_read_one(mid, ops, keys, result, k, head, v);
    }
}

proof fn lemma_good_write(
    st: PlanState,
    ops: Seq<OpModel>,
    keys: Seq<SpecKey>,
    result: ValueId,
    k: nat,
)
    requires
        good_step(ops, keys, result),
        k < ops.len(),
        !(ops[k as int] is Reshape),
        at_moment(st, ops, keys, result, k, Seq::empty(), k),
        roomy(st, 2 * k as int),
    ensures
        write_op(st, ops[k as int], keys, result) matches Ok(next) && at_moment(
            next,
            ops,
            keys,
            result,
            k,
            Seq::empty(),
            (k + 1) as nat,
        ),
{
    let op = ops[k as int];
    let outs = outs_of(op);
    assert(op_in_range(op, keys.len()));
    assert forall|i: int| 0 <= i < outs.len() implies writes(ops, k, #[trigger] outs[i]) == 0 && (
    st.slots[outs[i].0 as int] is None || outs[i] == result) by {
        let v = outs[i];
        lemma_occurrences_at(outs, i);
        lemma_writes_monotonic(ops, (k + 1) as nat, ops.len(), v);
        assert(writes(ops, ops.len(), v) <= 1);
        assert(ValueId((v.0 as int) as usize) == v);
        assert(value_at_moment(st, ops, keys, result, k, Seq::empty(), k, v.0 as int));
    }
    assert forall|i: int, j: int| 0 <= i < j < outs.len() implies #[trigger] outs[i]
        != #[trigger] outs[j] by {
        if outs[i] == outs[j] {
            assert(outs.len() == 2 && i == 0 && j == 1);
            let v = outs[1];
            assert(outs.drop_last().drop_last() =~= Seq::empty());
            assert(occurrences(outs, v) == 2) by {
                assert(outs.last() == v);
                assert(outs.drop_last().last() == v);
                assert(occurrences(outs.drop_last(), v) == 1) by {
                    assert(occurrences(Seq::<ValueId>::empty(), v) == 0);
                }
            }
            lemma_writes_monotonic(ops, (k + 1) as nat, ops.len(), v);
            assert(writes(ops, ops.len(), v) <= 1);
        }
    }
    lemma_hold_outs_slots(st, outs, keys, result, 2 * k as int);
    let next = hold_outs(st, outs, keys, result);
    assert(write_op(st, op, keys, result) == Ok::<PlanState, GraphError>(next));
    assert forall|i: int| 0 <= i < keys.len() implies #[trigger] value_at_moment(
        next,
        ops,
        keys,
        result,
        k,
        Seq::empty(),
        (k + 1) as nat,
        i,
    ) by {
        let v = ValueId(i as usize);
        assert(value_at_moment(st, ops, keys, result, k, Seq::empty(), k, i));
        if outs.contains(v) {
            let j = choose|j: int| 0 <= j < outs.len() && outs[j] == v;
            lemma_occurrences_at(outs, j);
            assert(writes(ops, k, outs[j]) == 0);
            if reads(ops, k, v) >= 1 {
                lemma_read_is_written(ops, keys, result, k, v);
            }
        } else if occurrences(outs, v) >= 1 {
            let j = lemma_occurrences_index(outs, v);
            assert(outs[j] == v);
        }
    }
}

/// A reshape of a good step succeeds.
proof fn lemma_good_reshape(
    st: PlanState,
    ops: Seq<OpModel>,
    keys: Seq<SpecKey>,
    result: ValueId,
    k: nat,
)
    requires
        good_step(ops, keys, result),
        k < ops.len(),
        ops[k as int] is Reshape,
        at_moment(st, ops, keys, result, k, Seq::empty(), k),
        roomy(st, 2 * k as int),
    ensures
        plan_op(st, ops[k as int], keys, result) matches Ok(next) && at_moment(
            next,
            ops,
            keys,
            result,
            (k + 1) as nat,
            Seq::empty(),
            (k + 1) as nat,
        ),
{
    let op = ops[k as int];
    let n = ops.len();
    assert(good_reshape(op, ops, keys, result));
    assert(op_in_range(op, keys.len()));
    let v = op->Reshape_input->Value_0;
    let out = op->Reshape_out;
    let (vi, oi) = (v.0 as int, out.0 as int);
    let ins = inputs_of(op);
    let outs = outs_of(op);
    assert(ins =~= seq![v]);
    assert(outs =~= seq![out]);
    assert(ins[0] == v);
    assert(outs[0] == out);
    assert(ValueId(vi as usize) == v && ValueId(oi as usize) == out);
    lemma_occurrences_at(ins, 0);
    lemma_occurrences_at(outs, 0);
    lemma_reads_monotonic(ops, (k + 1) as nat, n, v);
    lemma_reads_monotonic(ops, (k + 1) as nat, n, result);
    lemma_writes_monotonic(ops, (k + 1) as nat, n, out);
    lemma_writes_monotonic(ops, k, n, v);
    assert(writes(ops, n, out) <= 1);
    assert(writes(ops, k, inputs_of(ops[k as int])[0]) >= 1);
    assert(writes(ops, k, out) == 0);
    assert(reads(ops, k, v) == 0 && reads(ops, (k + 1) as nat, v) == 1);
    assert(v != result);
    assert(value_at_moment(st, ops, keys, result, k, Seq::empty(), k, vi));
    assert(value_at_moment(st, ops, keys, result, k, Seq::empty(), k, oi));
    assert(st.remaining[vi] == 1);
    assert(st.slots[vi] == Some(keys[vi]));
    assert(st.remaining[oi] == reads(ops, n, out) - reads(ops, k, out));
    if reads(ops, k, out) >= 1 {
        lemma_read_is_written(ops, keys, result, k, out);
    }
    assert(st.slots[oi] is None);
    let (src, dst) = (keys[vi], keys[oi]);
    lemma_slot_some(st.slots, vi, src);
    assert(count(st.live, src) == slot_count(st.slots, src));
    lemma_dec(st.live, src);
    let taken = PlanState {
        live: dec(st.live, src)->0,
        slots: st.slots.update(vi, None),
        ..st
    };
    assert forall|o: SpecKey| #[trigger] count(taken.live, o) == slot_count(taken.slots, o) by {
        lemma_slot_update(st.slots, vi, None, o);
        assert(count(st.live, o) == slot_count(st.slots, o));
    }
    assert(count(st.live, dst) <= 2 * k);
    assert(count(taken.live, dst) <= 2 * k);
    lemma_inc(taken.live, dst);
    let held = hold(taken, out, dst);
    assert(write_op(st, op, keys, result) == Ok::<PlanState, GraphError>(held));
    assert forall|o: SpecKey| #[trigger] count(held.live, o) == slot_count(held.slots, o) by {
        lemma_slot_update(taken.slots, oi, Some(dst), o);
        assert(count(taken.live, o) == slot_count(taken.slots, o));
    }
    assert(ins.drop_last() =~= Seq::empty());
    assert(ins.last() == v);
    assert(held.slots[vi] is None);
    assert(read_all(held, ins.drop_last(), result) == Ok::<PlanState, GraphError>(held));
    let next = read_one(held, v, result)->Ok_0;
    assert(read_all(held, ins, result) == Ok::<PlanState, GraphError>(next));
    assert forall|i: int| 0 <= i < keys.len() implies #[trigger] value_at_moment(
        next,
        ops,
        keys,
        result,
        (k + 1) as nat,
        Seq::empty(),
        (k + 1) as nat,
        i,
    ) by {
        let x = ValueId(i as usize);
        assert((x == v) == (i == vi));
        assert((x == out) == (i == oi));
        assert(occurrences(Seq::<ValueId>::empty(), x) == 0);
        assert(occurrences(ins, x) == if x == v {
            1nat
        } else {
            0
        });
        assert(outs.drop_last() =~= Seq::empty());
        assert(occurrences(outs, x) == if x == out {
            1nat
        } else {
            0
        });
        assert(value_at_moment(st, ops, keys, result, k, Seq::empty(), k, i));
    }
}

/// Planning a good step never fails.
pub proof fn lemma_good_plan(ops: Seq<OpModel>, keys: Seq<SpecKey>, result: ValueId, k: nat)
    requires
        good_step(ops, keys, result),
        k <= ops.len(),
    ensures
        plan_ops(ops, k, keys, read_counts(ops, keys.len()), result) matches Ok(st) && at_moment(
            st,
            ops,
            keys,
            result,
            k,
            Seq::empty(),
            k,
        ),
    decreases k,
{
    let counts = read_counts(ops, keys.len());
    if k == 0 {
        let st = plan_start(counts, keys.len());
        assert forall|o: SpecKey| #[trigger] count(st.live, o) == slot_count(st.slots, o) by {
            lemma_slots_none(st.slots, o);
        }
        assert forall|i: int| 0 <= i < keys.len() implies #[trigger] value_at_moment(
            st,
            ops,
            keys,
            result,
            0,
            Seq::empty(),
            0,
            i,
        ) by {
            crate::step_graph::lemma_reads_bound(ops, ops.len(), ValueId(i as usize));
        }
    } else {
        let m = (k - 1) as nat;
        lemma_good_plan(ops, keys, result, m);
        lemma_plan_grows(ops, m, m, keys, counts, result);
        let st = plan_ops(ops, m, keys, counts, result)->Ok_0;
        let op = ops[m as int];
        if op is Reshape {
            lemma_good_reshape(st, ops, keys, result, m);
        } else {
            lemma_good_write(st, ops, keys, result, m);
            let mid = write_op(st, op, keys, result)->Ok_0;
            let ins = inputs_of(op);
            lemma_good_reads(mid, ops, keys, result, m, ins.len() as int);
            assert(ins.subrange(0, ins.len() as int) =~= ins);
            let next = read_all(mid, ins, result)->Ok_0;
            assert forall|i: int| 0 <= i < keys.len() implies #[trigger] value_at_moment(
                next,
                ops,
                keys,
                result,
                k,
                Seq::empty(),
                k,
                i,
            ) by {
                assert(value_at_moment(next, ops, keys, result, m, ins, k, i));
            }
        }
    }
}

/// A step whose values are written once and before they are read is accepted, and
/// when it is done exactly the values that nothing ever reads still hold a buffer.
pub proof fn law_good_step_is_accepted(ops: Seq<OpModel>, keys: Seq<SpecKey>, result: ValueId)
    requires
        good_step(ops, keys, result),
    ensures
        step_check(ops, keys, result) matches Ok(st) && forall|i: int|
            0 <= i < keys.len() ==> (#[trigger] st.slots[i] is Some <==> writes(
                ops,
                ops.len(),
                ValueId(i as usize),
            ) >= 1 && ValueId(i as usize) != result && reads(
                ops,
                ops.len(),
                ValueId(i as usize),
            ) == 0),
{
    let counts = read_counts(ops, keys.len());
    lemma_good_plan(ops, keys, result, ops.len());
    assert(ValueId((result.0 as int) as usize) == result);
    lemma_good_no_shared(ops, keys, result, ops.len());
    let st = plan_ops(ops, ops.len(), keys, counts, result)->Ok_0;
    assert forall|i: int| 0 <= i < keys.len() implies (#[trigger] st.slots[i] is Some <==> writes(
        ops,
        ops.len(),
        ValueId(i as usize),
    ) >= 1 && ValueId(i as usize) != result && reads(ops, ops.len(), ValueId(i as usize)) == 0) by {
        assert(value_at_moment(st, ops, keys, result, ops.len(), Seq::empty(), ops.len(), i));
    }
}

proof fn lemma_good_no_shared(ops: Seq<OpModel>, keys: Seq<SpecKey>, result: ValueId, k: nat)
    requires
        good_step(ops, keys, result),
        k <= ops.len(),
    ensures
        shared_reshape(ops, k, read_counts(ops, keys.len())) is None,
    decreases k,
{
    if k > 0 {
        lemma_good_no_shared(ops, keys, result, (k - 1) as nat);
        let op = ops[k - 1];
        assert(good_reshape(op, ops, keys, result));
        assert(op_in_range(op, keys.len()));
        match op {
            Op::Reshape { input: TensorRef::Value(v), .. } => {
                assert(inputs_of(op)[0] == v);
                assert(ValueId((v.0 as int) as usize) == v);
            },
            _ => {},
        }
    }
}

} // verus!
