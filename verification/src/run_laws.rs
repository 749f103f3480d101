//! What holds of every run of a step.
use crate::graph::{inputs_of, outs_of, Op, OpModel, SpecKey, TensorRef, ValueId};
use crate::plan_laws::{
    at_moment, good_step, lemma_good_plan, lemma_occurrences_at, lemma_reads_monotonic,
    value_at_moment, writes,
};
use crate::pool::{lemma_pick, listed_buffers, pick, preallocated};
use crate::pool_plan::{
    hold_outs, op_in_range, plan_op, plan_ops, read_all, read_one, write_op, PlanState,
};
use crate::run::{
    args_of, fill, grant, grant_all, is_matrix, launch_op, release, release_all, reshape,
    resolve_all, run_op, run_ops, run_start, Arg, FinalLogitsPolicy, Grant, Held, LaunchModel,
    RunState,
};
use crate::step_graph::{occurrences, read_counts, reads};
use vstd::prelude::*;

verus! {

/// No buffer is in two places: values, free buffers, buffers on their way to a value and
/// the buffer kept for the result are all different, and all were handed out before.
pub open spec fn apart(st: RunState, loose: Seq<Grant>) -> bool {
    &&& 0 <= st.next <= usize::MAX
    &&& forall|i: int| 0 <= i < st.slots.len() ==> slot_below(#[trigger] st.slots[i], st.next)
    &&& forall|i: int, j: int|
        0 <= i < j < st.slots.len() ==> slots_differ(#[trigger] st.slots[i], #[trigger] st.slots[j])
    &&& forall|i: int| 0 <= i < st.free.len() ==> (#[trigger] st.free[i]).1 < st.next
    &&& forall|i: int, j: int|
        0 <= i < j < st.free.len() ==> (#[trigger] st.free[i]).1 != (#[trigger] st.free[j]).1
    &&& forall|i: int, j: int|
        0 <= i < st.slots.len() && 0 <= j < st.free.len() ==> slot_is_not(
            #[trigger] st.slots[i],
            (#[trigger] st.free[j]).1,
        )
    &&& forall|i: int| 0 <= i < loose.len() ==> (#[trigger] loose[i]).held.id < st.next
    &&& forall|i: int, j: int|
        0 <= i < j < loose.len() ==> (#[trigger] loose[i]).held.id != (
        #[trigger] loose[j]).held.id
    &&& forall|i: int, j: int|
        0 <= i < st.slots.len() && 0 <= j < loose.len() ==> slot_is_not(
            #[trigger] st.slots[i],
            (#[trigger] loose[j]).held.id,
        )
    &&& forall|i: int, j: int|
        0 <= i < st.free.len() && 0 <= j < loose.len() ==> (#[trigger] st.free[i]).1 != (
        #[trigger] loose[j]).held.id
    &&& match st.policy {
        FinalLogitsPolicy::Preallocated(h) => {
            &&& h.id < st.next
            &&& forall|i: int|
                0 <= i < st.slots.len() ==> slot_is_not(#[trigger] st.slots[i], h.id)
            &&& forall|i: int| 0 <= i < st.free.len() ==> (#[trigger] st.free[i]).1 != h.id
            &&& forall|i: int| 0 <= i < loose.len() ==> (#[trigger] loose[i]).held.id != h.id
        },
        _ => true,
    }
}

pub open spec fn slot_below(s: Option<Held>, n: int) -> bool {
    match s {
        Some(h) => h.id < n,
        None => true,
    }
}

pub open spec fn slots_differ(s: Option<Held>, t: Option<Held>) -> bool {
    match (s, t) {
        (Some(a), Some(b)) => a.id != b.id,
        _ => true,
    }
}

pub open spec fn slot_is_not(s: Option<Held>, id: usize) -> bool {
    match s {
        Some(h) => h.id != id,
        None => true,
    }
}

proof fn lemma_grant_apart(
    st: RunState,
    loose: Seq<Grant>,
    v: ValueId,
    keys: Seq<SpecKey>,
    result: ValueId,
)
    requires
        apart(st, loose),
        st.next < usize::MAX,
    ensures
        grant(st, v, keys, result) matches Ok((end, g)) ==> apart(end, loose.push(g)) && end.slots
            == st.slots && st.next <= end.next <= st.next + 1,
{
    lemma_pick(st.free, keys[v.0 as int]);
    match grant(st, v, keys, result) {
        Ok((end, g)) => {
            let i = pick(st.free, keys[v.0 as int]);
            if v != result && i >= 0 {
                assert forall|a: int, b: int| 0 <= a < b < end.free.len() implies (
                #[trigger] end.free[a]).1 != (#[trigger] end.free[b]).1 by {
                    let x = if a < i {
                        a
                    } else {
                        a + 1
                    };
                    let y = if b < i {
                        b
                    } else {
                        b + 1
                    };
                    assert(end.free[a] == st.free[x] && end.free[b] == st.free[y]);
                }
                assert forall|a: int| 0 <= a < end.free.len() implies (#[trigger] end.free[a]).1
                    != st.free[i].1 && end.free[a].1 < st.next by {
                    let x = if a < i {
                        a
                    } else {
                        a + 1
                    };
                    assert(end.free[a] == st.free[x]);
                }
                assert forall|a: int, b: int|
                    0 <= a < st.slots.len() && 0 <= b < end.free.len() implies slot_is_not(
                    #[trigger] st.slots[a],
                    (#[trigger] end.free[b]).1,
                ) by {
                    let y = if b < i {
                        b
                    } else {
                        b + 1
                    };
                    assert(end.free[b] == st.free[y]);
                }
                assert forall|a: int, b: int|
                    0 <= a < end.free.len() && 0 <= b < loose.len() implies (
                #[trigger] end.free[a]).1 != (#[trigger] loose[b]).held.id by {
                    let x = if a < i {
                        a
                    } else {
                        a + 1
                    };
                    assert(end.free[a] == st.free[x]);
                }
                assert(st.free[i].1 < st.next);
                assert forall|a: int| 0 <= a < end.free.len() implies match st.policy {
                    FinalLogitsPolicy::Preallocated(h) => (#[trigger] end.free[a]).1 != h.id,
                    _ => true,
                } by {
                    let x = if a < i {
                        a
                    } else {
                        a + 1
                    };
                    assert(end.free[a] == st.free[x]);
                }
            }
            let all = loose.push(g);
            assert forall|a: int| 0 <= a < all.len() implies (#[trigger] all[a]).held.id
                < end.next by {
                if a < loose.len() {
                    assert(all[a] == loose[a]);
                }
            }
            assert forall|a: int| 0 <= a < loose.len() implies (#[trigger] loose[a]).held.id
                != g.held.id by {}
            assert forall|a: int, b: int| 0 <= a < b < all.len() implies (
            #[trigger] all[a]).held.id != (#[trigger] all[b]).held.id by {
                assert(all[a] == loose[a]);
                if b < loose.len() {
                    assert(all[b] == loose[b]);
                }
            }
            assert forall|a: int| 0 <= a < st.slots.len() implies slot_is_not(
                #[trigger] st.slots[a],
                g.held.id,
            ) by {
                assert(slot_below(st.slots[a], st.next));
            }
            assert forall|a: int, b: int|
                0 <= a < end.slots.len() && 0 <= b < all.len() implies slot_is_not(
                #[trigger] end.slots[a],
                (#[trigger] all[b]).held.id,
            ) by {
                if b < loose.len() {
                    assert(all[b] == loose[b]);
                }
            }
            assert forall|a: int| 0 <= a < end.free.len() implies (#[trigger] end.free[a]).1
                != g.held.id by {}
            assert forall|a: int, b: int|
                0 <= a < end.free.len() && 0 <= b < all.len() implies (#[trigger] end.free[a]).1
                != (#[trigger] all[b]).held.id by {
                if b < loose.len() {
                    assert(all[b] == loose[b]);
                }
            }
            match end.policy {
                FinalLogitsPolicy::Preallocated(h) => {
                    assert forall|a: int| 0 <= a < all.len() implies (#[trigger] all[a]).held.id
                        != h.id by {
                        if a < loose.len() {
                            assert(all[a] == loose[a]);
                        }
                    }
                },
                _ => {},
            }
        },
        Err(_) => {},
    }
}

proof fn lemma_grants_apart(
    st: RunState,
    outs: Seq<ValueId>,
    keys: Seq<SpecKey>,
    result: ValueId,
)
    requires
        apart(st, Seq::empty()),
        st.next + outs.len() <= usize::MAX,
    ensures
        grant_all(st, outs, keys, result) matches Ok((end, gs)) ==> apart(end, gs) && gs.len()
            == outs.len() && end.slots == st.slots && st.next <= end.next <= st.next + outs.len(),
    decreases outs.len(),
{
    if outs.len() > 0 {
        lemma_grants_apart(st, outs.drop_last(), keys, result);
        match grant_all(st, outs.drop_last(), keys, result) {
            Ok((mid, s)) => {
                lemma_grant_apart(mid, s, outs.last(), keys, result);
            },
            Err(_) => {},
        }
    }
}

proof fn lemma_fill_apart(st: RunState, outs: Seq<ValueId>, grants: Seq<Grant>, k: int)
    requires
        apart(st, grants),
        grants.len() == outs.len(),
        0 <= k <= outs.len(),
        forall|i: int| 0 <= i < outs.len() ==> (#[trigger] outs[i]).0 < st.slots.len(),
    ensures
        apart(
            RunState { slots: fill(st.slots, outs.subrange(0, k), grants), ..st },
            grants.subrange(k, grants.len() as int),
        ),
        fill(st.slots, outs.subrange(0, k), grants).len() == st.slots.len(),
    decreases k,
{
    if k == 0 {
        assert(outs.subrange(0, 0) =~= Seq::empty());
        assert(grants.subrange(0, grants.len() as int) =~= grants);
    } else {
        lemma_fill_apart(st, outs, grants, k - 1);
        assert(outs.subrange(0, k).drop_last() =~= outs.subrange(0, k - 1));
        let before = RunState { slots: fill(st.slots, outs.subrange(0, k - 1), grants), ..st };
        let after = RunState { slots: fill(st.slots, outs.subrange(0, k), grants), ..st };
        let loose = grants.subrange(k - 1, grants.len() as int);
        let rest = grants.subrange(k, grants.len() as int);
        let at = outs[k - 1].0 as int;
        assert(loose[0] == grants[k - 1]);
        assert(after.slots == before.slots.update(at, Some(grants[k - 1].held)));
        assert forall|i: int| 0 <= i < rest.len() implies #[trigger] rest[i] == loose[i + 1] by {}
        assert forall|i: int, j: int|
            0 <= i < after.slots.len() && 0 <= j < rest.len() implies slot_is_not(
            #[trigger] after.slots[i],
            (#[trigger] rest[j]).held.id,
        ) by {
            assert(rest[j] == loose[j + 1]);
            if i != at {
                assert(after.slots[i] == before.slots[i]);
            }
        }
        assert(forall|i: int|
            0 <= i < after.slots.len() && i != at ==> #[trigger] after.slots[i]
                == before.slots[i]);
        assert forall|i: int, j: int| 0 <= i < j < after.slots.len() implies slots_differ(
            #[trigger] after.slots[i],
            #[trigger] after.slots[j],
        ) by {
            if i != at && j != at {
                assert(slots_differ(before.slots[i], before.slots[j]));
            } else if i == at {
                assert(slot_is_not(before.slots[j], loose[0].held.id));
            } else {
                assert(slot_is_not(before.slots[i], loose[0].held.id));
            }
        }
        assert forall|i: int, j: int|
            0 <= i < after.slots.len() && 0 <= j < after.free.len() implies slot_is_not(
            #[trigger] after.slots[i],
            (#[trigger] after.free[j]).1,
        ) by {
            if i == at {
                assert(before.free[j].1 != loose[0].held.id);
            } else {
                assert(slot_is_not(before.slots[i], before.free[j].1));
            }
        }
        assert forall|i: int, j: int| 0 <= i < j < rest.len() implies (
        #[trigger] rest[i]).held.id != (#[trigger] rest[j]).held.id by {
            assert(rest[i] == loose[i + 1] && rest[j] == loose[j + 1]);
        }
        assert forall|i: int, j: int| 0 <= i < after.free.len() && 0 <= j < rest.len() implies (
        #[trigger] after.free[i]).1 != (#[trigger] rest[j]).held.id by {
            assert(rest[j] == loose[j + 1]);
        }
        match after.policy {
            FinalLogitsPolicy::Preallocated(h) => {
                assert(loose[0].held.id != h.id);
                assert forall|i: int| 0 <= i < after.slots.len() implies slot_is_not(
                    #[trigger] after.slots[i],
                    h.id,
                ) by {
                    if i != at {
                        assert(slot_is_not(before.slots[i], h.id));
                    }
                }
                assert forall|i: int| 0 <= i < rest.len() implies (#[trigger] rest[i]).held.id
                    != h.id by {
                    assert(rest[i] == loose[i + 1]);
                }
            },
            _ => {},
        }
    }
}

proof fn lemma_release_apart(
    st: RunState,
    v: ValueId,
    keys: Seq<SpecKey>,
    caps: Seq<(SpecKey, usize)>,
    result: ValueId,
)
    requires
        apart(st, Seq::empty()),
        v.0 < st.slots.len(),
    ensures
        release(st, v, keys, caps, result) matches Ok(end) ==> apart(end, Seq::empty())
            && end.slots.len() == st.slots.len() && end.next == st.next,
{
    match release(st, v, keys, caps, result) {
        Ok(end) => {
            if end.slots != st.slots {
                let h = st.slots[v.0 as int]->Some_0;
                assert(end.slots == st.slots.update(v.0 as int, None));
                assert(forall|i: int|
                    0 <= i < end.slots.len() ==> #[trigger] end.slots[i] == if i == v.0 {
                        None
                    } else {
                        st.slots[i]
                    });
                assert forall|i: int| 0 <= i < end.slots.len() implies slot_is_not(
                    #[trigger] end.slots[i],
                    h.id,
                ) by {
                    if i < v.0 {
                        assert(slots_differ(st.slots[i], st.slots[v.0 as int]));
                    } else if i > v.0 {
                        assert(slots_differ(st.slots[v.0 as int], st.slots[i]));
                    }
                }
            }
        },
        Err(_) => {},
    }
}

proof fn lemma_releases_apart(
    st: RunState,
    ins: Seq<ValueId>,
    keys: Seq<SpecKey>,
    caps: Seq<(SpecKey, usize)>,
    result: ValueId,
)
    requires
        apart(st, Seq::empty()),
        forall|i: int| 0 <= i < ins.len() ==> (#[trigger] ins[i]).0 < st.slots.len(),
    ensures
        release_all(st, ins, keys, caps, result) matches Ok(end) ==> apart(end, Seq::empty())
            && end.slots.len() == st.slots.len() && end.next == st.next,
    decreases ins.len(),
{
    if ins.len() > 0 {
        lemma_releases_apart(st, ins.drop_last(), keys, caps, result);
        match release_all(st, ins.drop_last(), keys, caps, result) {
            Ok(mid) => {
                assert(ins.last().0 < st.slots.len());
                lemma_release_apart(mid, ins.last(), keys, caps, result);
            },
            Err(_) => {},
        }
    }
}

/// What is resolved is a buffer of a value or a weight.
proof fn lemma_resolved(slots: Seq<Option<Held>>, args: Seq<(bool, TensorRef)>, n: nat)
    requires
        n == slots.len(),
        forall|i: int|
            0 <= i < args.len() ==> match (#[trigger] args[i]).1 {
                TensorRef::Value(v) => v.0 < n,
                TensorRef::Weight(_) => true,
            },
    ensures
        resolve_all(slots, args) matches Ok(s) ==> s.len() == args.len() && forall|i: int|
            0 <= i < s.len() ==> of_a_value(#[trigger] s[i], slots),
    decreases args.len(),
{
    if args.len() > 0 {
        lemma_resolved(slots, args.drop_last(), n);
        match resolve_all(slots, args) {
            Ok(s) => {
                let a = args.last();
                assert(a == args[args.len() - 1]);
                if a.1 is Value {
                    let v = a.1->Value_0;
                    assert(slots[v.0 as int] == Some(s.last()->Buffer_0));
                }
            },
            Err(_) => {},
        }
    }
}

/// An argument that is a buffer is the buffer of a value.
pub open spec fn of_a_value(a: Arg, slots: Seq<Option<Held>>) -> bool {
    match a {
        Arg::Buffer(h) => exists|i: int| 0 <= i < slots.len() && #[trigger] slots[i] == Some(h),
        Arg::Weight(_) => true,
    }
}

/// An operation writes no buffer that it reads, and no buffer twice.
pub open spec fn no_overlap(l: LaunchModel) -> bool {
    &&& forall|i: int, j: int|
        0 <= i < l.args.len() && 0 <= j < l.outs.len() ==> arg_is_not(
            #[trigger] l.args[i],
            (#[trigger] l.outs[j]).held.id,
        )
    &&& forall|i: int, j: int|
        0 <= i < j < l.outs.len() ==> (#[trigger] l.outs[i]).held.id != (
        #[trigger] l.outs[j]).held.id
}

pub open spec fn arg_is_not(a: Arg, id: usize) -> bool {
    match a {
        Arg::Buffer(h) => h.id != id,
        Arg::Weight(_) => true,
    }
}

proof fn lemma_args_named(op: OpModel, n: nat)
    requires
        op_in_range(op, n),
    ensures
        forall|i: int|
            0 <= i < args_of(op).len() ==> match (#[trigger] args_of(op)[i]).1 {
                TensorRef::Value(v) => v.0 < n,
                TensorRef::Weight(_) => true,
            },
        args_of(op).len() <= 3,
        outs_of(op).len() <= 2,
{
    let args = args_of(op);
    let ins = inputs_of(op);
    assert forall|i: int| 0 <= i < args.len() implies match (#[trigger] args[i]).1 {
        TensorRef::Value(v) => v.0 < n,
        TensorRef::Weight(_) => true,
    } by {
        let before: int = if i == 0 {
            0
        } else if i == 1 {
            args[0].1.values().len() as int
        } else {
            args[0].1.values().len() as int + args[1].1.values().len()
        };
        if args[i].1 is Value {
            assert(ins[before] == args[i].1->Value_0);
        }
    }
}

/// No two values share a buffer, a free buffer belongs to no value, and an operation
/// writes no buffer that it reads: this holds after every operation, whatever the step.
pub proof fn law_buffers_stay_apart(
    st: RunState,
    op: OpModel,
    keys: Seq<SpecKey>,
    caps: Seq<(SpecKey, usize)>,
    result: ValueId,
)
    requires
        apart(st, Seq::empty()),
        st.slots.len() == keys.len(),
        op_in_range(op, keys.len()),
        st.next + 2 <= usize::MAX,
    ensures
        run_op(st, op, keys, caps, result) matches Ok((end, l)) ==> {
            &&& apart(end, Seq::empty())
            &&& end.slots.len() == keys.len()
            &&& st.next <= end.next <= st.next + 2
            &&& !(op is Reshape) ==> no_overlap(l)
        },
{
    lemma_args_named(op, keys.len());
    match launch_op(st, op, keys, result) {
        Err(_) => {},
        Ok((mid, l)) => {
            match op {
                Op::Reshape { input, shape, out } => {
                    lemma_reshape_apart(st, input, shape, out);
                    assert(outs_of(op)[0] == out);
                    if input is Value {
                        assert(inputs_of(op)[0] == input->Value_0);
                    }
                },
                _ => {
                    lemma_resolved(st.slots, args_of(op), keys.len());
                    lemma_grants_apart(st, outs_of(op), keys, result);
                    let (got, gs) = grant_all(st, outs_of(op), keys, result)->Ok_0;
                    let outs = outs_of(op);
                    lemma_fill_apart(got, outs, gs, outs.len() as int);
                    assert(outs.subrange(0, outs.len() as int) =~= outs);
                    assert(gs.subrange(gs.len() as int, gs.len() as int) =~= Seq::empty());
                    assert(no_overlap(l)) by {
                        assert forall|i: int, j: int|
                            0 <= i < l.args.len() && 0 <= j < l.outs.len() implies arg_is_not(
                            #[trigger] l.args[i],
                            (#[trigger] l.outs[j]).held.id,
                        ) by {
                            assert(of_a_value(l.args[i], st.slots));
                            if l.args[i] is Buffer {
                                let h = l.args[i]->Buffer_0;
                                let x = choose|x: int|
                                    0 <= x < st.slots.len() && #[trigger] st.slots[x] == Some(h);
                                assert(slot_is_not(got.slots[x], gs[j].held.id));
                            }
                        }
                    }
                },
            }
            lemma_releases_apart(mid, inputs_of(op), keys, caps, result);
        },
    }
}

proof fn lemma_reshape_apart(st: RunState, input: TensorRef, shape: Seq<usize>, out: ValueId)
    requires
        apart(st, Seq::empty()),
        st.next < usize::MAX,
        input matches TensorRef::Value(v) ==> v.0 < st.slots.len(),
        out.0 < st.slots.len(),
    ensures
        reshape(st, input, shape, out) matches Ok((end, _)) ==> apart(end, Seq::empty())
            && end.slots.len() == st.slots.len() && st.next <= end.next <= st.next + 1,
{
    match reshape(st, input, shape, out) {
        Err(_) => {},
        Ok((end, _)) => {
            let v = input->Value_0;
            let vi = v.0 as int;
            let oi = out.0 as int;
            let h = st.slots[vi]->Some_0;
            let taken = if st.left[vi] == 1 {
                st.slots.update(vi, None)
            } else {
                st.slots
            };
            let id = end.slots[oi]->Some_0.id;
            assert forall|i: int| 0 <= i < taken.len() implies slot_is_not(
                #[trigger] taken[i],
                id,
            ) by {
                if st.left[vi] == 1 && i != vi {
                    if i < vi {
                        assert(slots_differ(st.slots[i], st.slots[vi]));
                    } else {
                        assert(slots_differ(st.slots[vi], st.slots[i]));
                    }
                }
            }
            assert(end.slots == taken.update(oi, end.slots[oi]));
            assert forall|i: int, j: int| 0 <= i < j < end.slots.len() implies slots_differ(
                #[trigger] end.slots[i],
                #[trigger] end.slots[j],
            ) by {
                if i != oi && j != oi {
                    assert(end.slots[i] == taken[i] && end.slots[j] == taken[j]);
                    assert(slots_differ(st.slots[i], st.slots[j]));
                } else if i == oi {
                    assert(end.slots[j] == taken[j]);
                } else {
                    assert(end.slots[i] == taken[i]);
                }
            }
            assert(forall|i: int|
                0 <= i < end.slots.len() && i != oi ==> #[trigger] end.slots[i] == taken[i]);
            assert forall|j: int| 0 <= j < st.free.len() implies (#[trigger] st.free[j]).1
                != id by {
                assert(slot_is_not(st.slots[vi], st.free[j].1));
            }
            match st.policy {
                FinalLogitsPolicy::Preallocated(p) => {
                    assert(slot_is_not(st.slots[vi], p.id));
                },
                _ => {},
            }
        },
    }
}

/// The buffers of a plan are numbered one after the other.
proof fn lemma_preallocated(s: Seq<(SpecKey, usize)>, first: int)
    requires
        0 <= first,
        first + listed_buffers(s) <= usize::MAX,
    ensures
        preallocated(s, first).len() == listed_buffers(s),
        forall|i: int|
            0 <= i < listed_buffers(s) ==> (#[trigger] preallocated(s, first)[i]).1 == first + i,
    decreases s.len(),
{
    if s.len() > 0 {
        lemma_preallocated(s.drop_last(), first);
    }
}

/// A run begins with all buffers apart: those of the plan are numbered from `first` on,
/// and a buffer that is kept for the result has a lower number.
pub proof fn law_start_is_apart(
    uses: Seq<usize>,
    values: nat,
    planned: Seq<(SpecKey, usize)>,
    first: int,
    policy: FinalLogitsPolicy,
)
    requires
        0 <= first,
        first + listed_buffers(planned) <= usize::MAX,
        policy matches FinalLogitsPolicy::Preallocated(h) ==> h.id < first,
    ensures
        apart(
            run_start(
                uses,
                values,
                preallocated(planned, first),
                first + listed_buffers(planned),
                policy,
            ),
            Seq::empty(),
        ),
{
    lemma_preallocated(planned, first);
    let free = preallocated(planned, first);
    assert forall|i: int, j: int| 0 <= i < j < free.len() implies (#[trigger] free[i]).1 != (
    #[trigger] free[j]).1 by {
        assert(free[i].1 == first + i && free[j].1 == first + j);
    }
    assert forall|i: int| 0 <= i < free.len() implies first <= (#[trigger] free[i]).1 < first
        + listed_buffers(planned) by {
        assert(free[i].1 == first + i);
    }
}

/// The weights of an operation are matrices where it needs matrices, and a reshape names
/// the shape of the value that it writes.
pub open spec fn well_typed(op: OpModel, keys: Seq<SpecKey>) -> bool {
    &&& forall|i: int| 0 <= i < args_of(op).len() ==> arg_typed(#[trigger] args_of(op)[i])
    &&& match op {
        Op::Reshape { shape, out, .. } => shape == keys[out.0 as int].shape,
        _ => true,
    }
}

pub open spec fn arg_typed(a: (bool, TensorRef)) -> bool {
    match a.1 {
        TensorRef::Value(_) => true,
        TensorRef::Weight(w) => a.0 == is_matrix(w),
    }
}

/// A run and a plan of the same step agree on which values hold a buffer. Values below
/// are those that count: the plan leaves the result out.
spec fn agree(
    st: RunState,
    plan: PlanState,
    keys: Seq<SpecKey>,
    result: ValueId,
    written: bool,
) -> bool {
    &&& st.slots.len() == keys.len()
    &&& plan.slots.len() == keys.len()
    &&& st.left == plan.remaining
    &&& forall|i: int|
        0 <= i < keys.len() && i != result.0 ==> same_slot(
            #[trigger] st.slots[i],
            plan.slots[i],
            keys[i],
        )
    &&& st.slots[result.0 as int] is Some <==> written
    &&& !written ==> st.policy !is Taken
}

spec fn same_slot(s: Option<Held>, t: Option<SpecKey>, k: SpecKey) -> bool {
    match (s, t) {
        (Some(h), Some(_)) => h.numel == k.numel(),
        (None, None) => true,
        _ => false,
    }
}

/// Giving back what was read goes as the plan says.
proof fn lemma_agree_reads(
    st: RunState,
    plan: PlanState,
    ins: Seq<ValueId>,
    keys: Seq<SpecKey>,
    caps: Seq<(SpecKey, usize)>,
    result: ValueId,
    written: bool,
)
    requires
        agree(st, plan, keys, result, written),
        plan.remaining.len() == keys.len(),
        read_all(plan, ins, result) is Ok,
        result.0 < keys.len(),
        forall|i: int|
            0 <= i < ins.len() ==> (#[trigger] ins[i]).0 < keys.len() && ins[i] != result,
    ensures
        release_all(st, ins, keys, caps, result) matches Ok(end) && agree(
            end,
            read_all(plan, ins, result)->Ok_0,
            keys,
            result,
            written,
        ) && (read_all(plan, ins, result)->Ok_0).remaining.len() == keys.len(),
    decreases ins.len(),
{
    if ins.len() > 0 {
        let front = ins.drop_last();
        assert forall|i: int| 0 <= i < front.len() implies (#[trigger] front[i]).0 < keys.len()
            && front[i] != result by {
            assert(front[i] == ins[i]);
        }
        lemma_agree_reads(st, plan, front, keys, caps, result, written);
        let mid = release_all(st, front, keys, caps, result)->Ok_0;
        let pmid = read_all(plan, front, result)->Ok_0;
        let v = ins.last();
        let vi = v.0 as int;
        assert(v == ins[ins.len() - 1]);
        assert(same_slot(mid.slots[vi], pmid.slots[vi], keys[vi]));
        let end = release(mid, v, keys, caps, result)->Ok_0;
        let pend = read_one(pmid, v, result)->Ok_0;
        assert(end.left =~= pend.remaining);
        assert forall|i: int| 0 <= i < keys.len() && i != result.0 implies same_slot(
            #[trigger] end.slots[i],
            pend.slots[i],
            keys[i],
        ) by {
            assert(same_slot(mid.slots[i], pmid.slots[i], keys[i]));
        }
    }
}

/// Resolving succeeds where every value holds a buffer and every weight is of its type.
proof fn lemma_resolves(slots: Seq<Option<Held>>, args: Seq<(bool, TensorRef)>)
    requires
        forall|i: int|
            0 <= i < args.len() ==> arg_typed(#[trigger] args[i]) && (
            args[i].1 matches TensorRef::Value(v) ==> slots[v.0 as int] is Some),
    ensures
        resolve_all(slots, args) is Ok,
    decreases args.len(),
{
    if args.len() > 0 {
        let front = args.drop_last();
        assert forall|i: int| 0 <= i < front.len() implies arg_typed(#[trigger] front[i]) && (
        front[i].1 matches TensorRef::Value(v) ==> slots[v.0 as int] is Some) by {
            assert(front[i] == args[i]);
        }
        lemma_resolves(slots, front);
        assert(args.last() == args[args.len() - 1]);
    }
}

/// Buffers are granted where the result is written for the first time only.
proof fn lemma_grants(
    st: RunState,
    outs: Seq<ValueId>,
    keys: Seq<SpecKey>,
    result: ValueId,
)
    requires
        outs.len() <= 2,
        occurrences(outs, result) >= 1 ==> st.policy !is Taken,
        occurrences(outs, result) <= 1,
        forall|i: int|
            0 <= i < outs.len() ==> 0 <= keys[(#[trigger] outs[i]).0 as int].numel() <= usize::MAX,
    ensures
        grant_all(st, outs, keys, result) matches Ok((end, gs)) && {
            &&& gs.len() == outs.len()
            &&& end.slots == st.slots
            &&& end.left == st.left
            &&& occurrences(outs, result) == 0 ==> end.policy == st.policy
            &&& forall|i: int|
                0 <= i < gs.len() && outs[i] != result ==> (#[trigger] gs[i]).held.numel
                    == keys[outs[i].0 as int].numel()
        },
    decreases outs.len(),
{
    if outs.len() > 0 {
        let front = outs.drop_last();
        assert forall|i: int| 0 <= i < front.len() implies 0 <= keys[(
        #[trigger] front[i]).0 as int].numel() <= usize::MAX by {
            assert(front[i] == outs[i]);
        }
        lemma_grants(st, front, keys, result);
        let (mid, s) = grant_all(st, front, keys, result)->Ok_0;
        let v = outs.last();
        assert(v == outs[outs.len() - 1]);
        assert(grant(mid, v, keys, result) is Ok);
        let (end, g) = grant(mid, v, keys, result)->Ok_0;
        let gs = s.push(g);
        assert forall|i: int| 0 <= i < gs.len() && outs[i] != result implies (
        #[trigger] gs[i]).held.numel == keys[outs[i].0 as int].numel() by {
            if i < s.len() {
                assert(gs[i] == s[i]);
                assert(front[i] == outs[i]);
            }
        }
    }
}

/// Writing the values of an operation goes as the plan says.
proof fn lemma_agree_fill(
    st: RunState,
    plan: PlanState,
    outs: Seq<ValueId>,
    gs: Seq<Grant>,
    keys: Seq<SpecKey>,
    result: ValueId,
    written: bool,
)
    requires
        outs.len() <= gs.len(),
        result.0 < keys.len(),
        st.slots.len() == keys.len(),
        plan.slots.len() == keys.len(),
        st.left == plan.remaining,
        forall|i: int|
            0 <= i < keys.len() && i != result.0 ==> same_slot(
                #[trigger] st.slots[i],
                plan.slots[i],
                keys[i],
            ),
        st.slots[result.0 as int] is Some <==> written,
        forall|i: int| 0 <= i < outs.len() ==> (#[trigger] outs[i]).0 < keys.len(),
        forall|i: int|
            0 <= i < outs.len() && outs[i] != result ==> (#[trigger] gs[i]).held.numel
                == keys[outs[i].0 as int].numel(),
    ensures
        ({
            let slots = fill(st.slots, outs, gs);
            let next = hold_outs(plan, outs, keys, result);
            &&& slots.len() == keys.len()
            &&& next.slots.len() == keys.len()
            &&& next.remaining == plan.remaining
            &&& forall|i: int|
                0 <= i < keys.len() && i != result.0 ==> same_slot(
                    #[trigger] slots[i],
                    next.slots[i],
                    keys[i],
                )
            &&& slots[result.0 as int] is Some <==> written || occurrences(outs, result) >= 1
        }),
    decreases outs.len(),
{
    if outs.len() > 0 {
        let front = outs.drop_last();
        assert forall|i: int| 0 <= i < front.len() implies (#[trigger] front[i]).0
            < keys.len() by {
            assert(front[i] == outs[i]);
        }
        assert forall|i: int| 0 <= i < front.len() && front[i] != result implies (
        #[trigger] gs[i]).held.numel == keys[front[i].0 as int].numel() by {
            assert(front[i] == outs[i]);
        }
        lemma_agree_fill(st, plan, front, gs, keys, result, written);
        let v = outs.last();
        assert(v == outs[outs.len() - 1]);
        let before = fill(st.slots, front, gs);
        let pbefore = hold_outs(plan, front, keys, result);
        let after = fill(st.slots, outs, gs);
        let pafter = hold_outs(plan, outs, keys, result);
        assert forall|i: int| 0 <= i < keys.len() && i != result.0 implies same_slot(
            #[trigger] after[i],
            pafter.slots[i],
            keys[i],
        ) by {
            assert(same_slot(before[i], pbefore.slots[i], keys[i]));
        }
    }
}

/// What an operation of a good step reads holds a buffer when it comes to run.
proof fn lemma_input_is_live(
    plan: PlanState,
    ops: Seq<OpModel>,
    keys: Seq<SpecKey>,
    result: ValueId,
    m: nat,
    i: int,
)
    requires
        good_step(ops, keys, result),
        m < ops.len(),
        at_moment(plan, ops, keys, result, m, Seq::empty(), m),
        0 <= i < inputs_of(ops[m as int]).len(),
    ensures
        ({
            let v = inputs_of(ops[m as int])[i];
            &&& v != result
            &&& v.0 < keys.len()
            &&& plan.slots[v.0 as int] is Some
            &&& plan.remaining[v.0 as int] == reads(ops, ops.len(), v) - reads(ops, m, v)
            &&& plan.remaining[v.0 as int] >= 1
        }),
{
    let op = ops[m as int];
    let v = inputs_of(op)[i];
    assert(op_in_range(op, keys.len()));
    lemma_occurrences_at(inputs_of(op), i);
    lemma_reads_monotonic(ops, (m + 1) as nat, ops.len(), v);
    assert(writes(ops, m as nat, inputs_of(ops[m as int])[i]) >= 1);
    assert(ValueId((v.0 as int) as usize) == v);
    assert(value_at_moment(plan, ops, keys, result, m, Seq::empty(), m, v.0 as int));
}

/// One operation of a good step runs, and run and plan go on to agree.
proof fn lemma_good_op(
    st: RunState,
    plan: PlanState,
    ops: Seq<OpModel>,
    keys: Seq<SpecKey>,
    caps: Seq<(SpecKey, usize)>,
    result: ValueId,
    m: nat,
)
    requires
        good_step(ops, keys, result),
        m < ops.len(),
        well_typed(ops[m as int], keys),
        at_moment(plan, ops, keys, result, m, Seq::empty(), m),
        plan_op(plan, ops[m as int], keys, result) is Ok,
        agree(st, plan, keys, result, writes(ops, m, result) >= 1),
    ensures
        run_op(st, ops[m as int], keys, caps, result) matches Ok((end, _)) && agree(
            end,
            plan_op(plan, ops[m as int], keys, result)->Ok_0,
            keys,
            result,
            writes(ops, (m + 1) as nat, result) >= 1,
        ),
{
    let op = ops[m as int];
    let ins = inputs_of(op);
    let outs = outs_of(op);
    let before = writes(ops, m, result) >= 1;
    let after = writes(ops, (m + 1) as nat, result) >= 1;
    assert(op_in_range(op, keys.len()));
    lemma_args_named(op, keys.len());
    assert forall|i: int| 0 <= i < ins.len() implies (#[trigger] ins[i]).0 < keys.len() && ins[i]
        != result && plan.slots[ins[i].0 as int] is Some by {
        lemma_input_is_live(plan, ops, keys, result, m, i);
    }
    let pmid = write_op(plan, op, keys, result)->Ok_0;
    match op {
        Op::Reshape { input, shape, out } => {
            assert(crate::plan_laws::good_reshape(ops[m as int], ops, keys, result));
            let v = input->Value_0;
            let vi = v.0 as int;
            let oi = out.0 as int;
            assert(ins[0] == v);
            assert(outs[0] == out);
            lemma_input_is_live(plan, ops, keys, result, m, 0);
            assert(same_slot(st.slots[vi], plan.slots[vi], keys[vi]));
            assert(ValueId((v.0 as int) as usize) == v);
            assert(value_at_moment(plan, ops, keys, result, m, Seq::empty(), m, vi));
            assert(st.left[vi] == 1);
            assert(reshape(st, input, shape, out) is Ok);
            let mid = (reshape(st, input, shape, out)->Ok_0).0;
            assert(pmid.slots == plan.slots.update(vi, None).update(oi, Some(keys[oi])));
            assert(mid.slots == st.slots.update(vi, None).update(oi, st.slots[vi]));
            assert forall|i: int| 0 <= i < keys.len() && i != result.0 implies same_slot(
                #[trigger] mid.slots[i],
                pmid.slots[i],
                keys[i],
            ) by {
                assert(same_slot(st.slots[i], plan.slots[i], keys[i]));
            }
            assert(occurrences(outs, result) == 0) by {
                reveal_with_fuel(occurrences, 2);
            }
            assert(result.0 != vi && result.0 != oi);
            lemma_agree_reads(mid, pmid, ins, keys, caps, result, before);
        },
        _ => {
            let args = args_of(op);
            assert forall|i: int| 0 <= i < args.len() implies arg_typed(#[trigger] args[i]) && (
            args[i].1 matches TensorRef::Value(v) ==> st.slots[v.0 as int] is Some) by {
                if args[i].1 is Value {
                    let v = args[i].1->Value_0;
                    let at: int = if i == 0 {
                        0
                    } else if i == 1 {
                        args[0].1.values().len() as int
                    } else {
                        args[0].1.values().len() as int + args[1].1.values().len()
                    };
                    assert(ins[at] == v);
                    assert(same_slot(st.slots[v.0 as int], plan.slots[v.0 as int], keys[v.0 as int]));
                }
            }
            lemma_resolves(st.slots, args);
            lemma_writes_step(ops, m, result);
            assert(writes(ops, ops.len(), result) <= 1);
            assert forall|i: int| 0 <= i < outs.len() implies 0 <= keys[(
            #[trigger] outs[i]).0 as int].numel() <= usize::MAX by {}
            lemma_grants(st, outs, keys, result);
            let (got, gs) = grant_all(st, outs, keys, result)->Ok_0;
            lemma_agree_fill(got, plan, outs, gs, keys, result, before);
            let mid = RunState { slots: fill(got.slots, outs, gs), ..got };
            lemma_agree_reads(mid, pmid, ins, keys, caps, result, after);
        },
    }
}

proof fn lemma_writes_step(ops: Seq<OpModel>, m: nat, v: ValueId)
    requires
        m < ops.len(),
    ensures
        writes(ops, (m + 1) as nat, v) == writes(ops, m, v) + occurrences(
            outs_of(ops[m as int]),
            v,
        ),
        writes(ops, (m + 1) as nat, v) <= writes(ops, ops.len(), v),
{
    lemma_writes_grow(ops, (m + 1) as nat, ops.len(), v);
}

proof fn lemma_writes_grow(ops: Seq<OpModel>, a: nat, b: nat, v: ValueId)
    requires
        a <= b,
    ensures
        writes(ops, a, v) <= writes(ops, b, v),
    decreases b,
{
    if a < b {
        lemma_writes_grow(ops, a, (b - 1) as nat, v);
    }
}

proof fn lemma_good_run(
    st: RunState,
    ops: Seq<OpModel>,
    keys: Seq<SpecKey>,
    caps: Seq<(SpecKey, usize)>,
    result: ValueId,
    k: nat,
)
    requires
        good_step(ops, keys, result),
        forall|i: int| 0 <= i < ops.len() ==> well_typed(#[trigger] ops[i], keys),
        k <= ops.len(),
        st.slots == Seq::new(keys.len(), |i: int| None::<Held>),
        st.left == read_counts(ops, keys.len()),
        st.policy !is Taken,
    ensures
        plan_ops(ops, k, keys, read_counts(ops, keys.len()), result) is Ok,
        run_ops(st, ops, k, keys, caps, result) matches Ok(end) && agree(
            end,
            plan_ops(ops, k, keys, read_counts(ops, keys.len()), result)->Ok_0,
            keys,
            result,
            writes(ops, k, result) >= 1,
        ),
    decreases k,
{
    let counts = read_counts(ops, keys.len());
    lemma_good_plan(ops, keys, result, k);
    if k > 0 {
        let m = (k - 1) as nat;
        lemma_good_run(st, ops, keys, caps, result, m);
        lemma_good_plan(ops, keys, result, m);
        let plan = plan_ops(ops, m, keys, counts, result)->Ok_0;
        let mid = run_ops(st, ops, m, keys, caps, result)->Ok_0;
        assert(well_typed(ops[m as int], keys));
        lemma_good_op(mid, plan, ops, keys, caps, result, m);
    }
}

/// A good step whose operations are well typed runs to its end on any pool: no value is
/// missing when it is read, and at the end a value other than the result holds a buffer
/// only if it was written and never read.
pub proof fn law_good_step_runs(
    ops: Seq<OpModel>,
    keys: Seq<SpecKey>,
    result: ValueId,
    free: Seq<(SpecKey, usize)>,
    caps: Seq<(SpecKey, usize)>,
    next: int,
    policy: FinalLogitsPolicy,
)
    requires
        good_step(ops, keys, result),
        forall|i: int| 0 <= i < ops.len() ==> well_typed(#[trigger] ops[i], keys),
        policy !is Taken,
    ensures
        run_ops(
            run_start(read_counts(ops, keys.len()), keys.len(), free, next, policy),
            ops,
            ops.len(),
            keys,
            caps,
            result,
        ) matches Ok(end) && {
            &&& end.slots.len() == keys.len()
            &&& end.slots[result.0 as int] is Some <==> writes(ops, ops.len(), result) >= 1
            &&& forall|i: int|
                0 <= i < keys.len() && i != result.0 && #[trigger] end.slots[i] is Some
                    ==> writes(ops, ops.len(), ValueId(i as usize)) >= 1 && reads(
                    ops,
                    ops.len(),
                    ValueId(i as usize),
                ) == 0
        },
{
    let counts = read_counts(ops, keys.len());
    let st = run_start(counts, keys.len(), free, next, policy);
    lemma_good_run(st, ops, keys, caps, result, ops.len());
    lemma_good_plan(ops, keys, result, ops.len());
    let plan = plan_ops(ops, ops.len(), keys, counts, result)->Ok_0;
    let end = run_ops(st, ops, ops.len(), keys, caps, result)->Ok_0;
    assert forall|i: int|
        0 <= i < keys.len() && i != result.0 && #[trigger] end.slots[i] is Some implies writes(
        ops,
        ops.len(),
        ValueId(i as usize),
    ) >= 1 && reads(ops, ops.len(), ValueId(i as usize)) == 0 by {
        assert(same_slot(end.slots[i], plan.slots[i], keys[i]));
        assert(value_at_moment(plan, ops, keys, result, ops.len(), Seq::empty(), ops.len(), i));
    }
}

} // verus!
