//! How many buffers a step needs: each value is live from the operation that writes
//! it to the last one that reads it.
use crate::graph::{
    extra_of, inputs_of, op_models, out_of, outs_of, spec_keys, GraphOp, Op, OpModel, SpecKey,
    TensorRef, TensorSpec, ValueId,
};
use crate::names::{
    bind, distinct, law_bind_lookup, law_unbind_lookup, lemma_bind_distinct, lemma_position_is,
    lookup, position, unbind,
};
use vstd::prelude::*;

verus! {

/// Why operations do not make a step.
#[derive(Clone, Copy, Debug, PartialEq, Eq, Structural)]
#[allow(inconsistent_fields)]
pub enum GraphError {
    /// The result is no value of the step.
    FinalRange { value: usize, values: usize },
    /// An operation reads the result.
    FinalUsed { count: usize },
    /// A reshaped value is read elsewhere too.
    ReshapeShared { value: usize, count: usize },
    /// A reshaped value has no buffer.
    ReshapeNotLive { value: usize },
    /// A reshape changes the element count.
    ReshapeNumel,
    /// A reshape reads a weight.
    ReshapeWeight,
    /// A value is read more often than was counted.
    UseCount { value: usize },
    /// A buffer is given back that was not taken.
    LiveUnderflow,
    /// A step needs at least one token.
    NoTokens,
    /// The output projection of a layer does not fit the attention width.
    OutputProjection { layer: usize },
}

/// A count of buffers for each kind.
#[derive(Debug)]
pub struct SpecCounts {
    pub entries: Vec<(TensorSpec, usize)>,
}

/// What the counts are.
pub open spec fn count_views(s: Seq<(TensorSpec, usize)>) -> Seq<(SpecKey, usize)> {
    s.map_values(|e: (TensorSpec, usize)| (e.0@, e.1))
}

impl View for SpecCounts {
    type V = Seq<(SpecKey, usize)>;

    open spec fn view(&self) -> Seq<(SpecKey, usize)> {
        count_views(self.entries@)
    }
}

/// The count of one kind; 0 where it is not listed.
pub open spec fn count(s: Seq<(SpecKey, usize)>, k: SpecKey) -> int {
    match lookup(s, k) {
        Some(n) => n as int,
        None => 0,
    }
}

/// One more of kind `k`.
pub open spec fn inc(s: Seq<(SpecKey, usize)>, k: SpecKey) -> Seq<(SpecKey, usize)> {
    bind(s, k, (count(s, k) + 1) as usize)
}

/// The count of kind `k` raised to `n`, where it is lower.
pub open spec fn raise(s: Seq<(SpecKey, usize)>, k: SpecKey, n: int) -> Seq<(SpecKey, usize)> {
    bind(
        s,
        k,
        if count(s, k) > n {
            count(s, k) as usize
        } else {
            n as usize
        },
    )
}

/// One less of kind `k`; a kind of which none is left is not listed. `None` where
/// there was none.
pub open spec fn dec(s: Seq<(SpecKey, usize)>, k: SpecKey) -> Option<Seq<(SpecKey, usize)>> {
    if count(s, k) == 0 {
        None
    } else if count(s, k) == 1 {
        Some(unbind(s, k))
    } else {
        Some(bind(s, k, (count(s, k) - 1) as usize))
    }
}

impl SpecCounts {
    /// No buffers.
    pub fn new() -> (r: Self)
        ensures
            r@.len() == 0,
    {
        SpecCounts { entries: Vec::new() }
    }

    /// The same counts once more.
    pub fn copy(&self) -> (r: Self)
        ensures
            r@ == self@,
    {
        let mut entries: Vec<(TensorSpec, usize)> = Vec::new();
        let mut i: usize = 0;
        while i < self.entries.len()
            invariant
                i <= self.entries@.len(),
                entries@.len() == i,
                forall|k: int|
                    0 <= k < i ==> (#[trigger] entries@[k]).0@ == self.entries@[k].0@
                        && entries@[k].1 == self.entries@[k].1,
            decreases self.entries@.len() - i,
        {
            let e: &(TensorSpec, usize) = &self.entries[i];
            entries.push((e.0.copy(), e.1));
            i = i + 1;
        }
        assert(count_views(entries@) =~= count_views(self.entries@));
        SpecCounts { entries }
    }

    /// The place of a kind, or the number of kinds where it is not listed.
    fn find(&self, spec: &TensorSpec) -> (r: usize)
        ensures
            r == position(self@, spec@),
    {
        let mut i: usize = 0;
        while i < self.entries.len()
            invariant
                i <= self.entries@.len(),
                forall|k: int| 0 <= k < i ==> (#[trigger] self@[k]).0 != spec@,
            decreases self.entries@.len() - i,
        {
            if self.entries[i].0.same(spec) {
                assert(self@[i as int].0 == spec@);
                proof {
                    lemma_position_is(self@, spec@, i as nat);
                }
                return i;
            }
            assert(self@[i as int].0 != spec@);
            i = i + 1;
        }
        proof {
            lemma_position_is(self@, spec@, i as nat);
        }
        i
    }

    /// The count of one kind.
    pub fn get(&self, spec: &TensorSpec) -> (r: Option<usize>)
        ensures
            r == lookup(self@, spec@),
    {
        let i: usize = self.find(spec);
        if i < self.entries.len() {
            assert(self@[i as int].1 == self.entries@[i as int].1);
            Some(self.entries[i].1)
        } else {
            None
        }
    }

    /// Sets the count of one kind.
    pub fn set(&mut self, spec: &TensorSpec, n: usize)
        ensures
            final(self)@ == bind(old(self)@, spec@, n),
    {
        let i: usize = self.find(spec);
        if i < self.entries.len() {
            self.entries.set(i, (spec.copy(), n));
        } else {
            self.entries.push((spec.copy(), n));
        }
        assert(self@ =~= bind(old(self)@, spec@, n));
    }

    /// Takes one kind off the list.
    fn unset(&mut self, spec: &TensorSpec)
        ensures
            final(self)@ == unbind(old(self)@, spec@),
    {
        let i: usize = self.find(spec);
        if i < self.entries.len() {
            let _ = self.entries.remove(i);
        }
        assert(self@ =~= unbind(old(self)@, spec@));
    }
}

/// Counts one more live buffer of kind `spec`, and keeps the greatest count seen.
pub fn increment_live_count(
    live_counts: &mut SpecCounts,
    max_live_by_spec: &mut SpecCounts,
    spec: &TensorSpec,
)
    requires
        count(old(live_counts)@, spec@) < usize::MAX,
    ensures
        final(live_counts)@ == inc(old(live_counts)@, spec@),
        final(max_live_by_spec)@ == raise(
            old(max_live_by_spec)@,
            spec@,
            count(old(live_counts)@, spec@) + 1,
        ),
{
    let cur: usize = match live_counts.get(spec) {
        Some(n) => n + 1,
        None => 1,
    };
    live_counts.set(spec, cur);
    let most: usize = match max_live_by_spec.get(spec) {
        Some(n) => if n > cur {
            n
        } else {
            cur
        },
        None => cur,
    };
    max_live_by_spec.set(spec, most);
}

/// Counts one live buffer of kind `spec` less.
pub fn decrement_live_count(live_counts: &mut SpecCounts, spec: &TensorSpec) -> (r: Result<
    (),
    GraphError,
>)
    ensures
        match r {
            Ok(_) => dec(old(live_counts)@, spec@) == Some(final(live_counts)@),
            Err(e) => dec(old(live_counts)@, spec@) is None && e == GraphError::LiveUnderflow,
        },
{
    match live_counts.get(spec) {
        None => Err(GraphError::LiveUnderflow),
        Some(n) => {
            if n == 0 {
                return Err(GraphError::LiveUnderflow);
            }
            if n == 1 {
                live_counts.unset(spec);
            } else {
                live_counts.set(spec, n - 1);
            }
            Ok(())
        },
    }
}

/// Where planning stands: reads that are still to come, the buffer of each live
/// value, buffers by kind now and at most, and bytes now and at most.
#[verifier::ext_equal]
pub struct PlanState {
    pub remaining: Seq<usize>,
    pub slots: Seq<Option<SpecKey>>,
    pub live: Seq<(SpecKey, usize)>,
    pub peak: Seq<(SpecKey, usize)>,
    pub total: int,
    pub high: int,
    pub high_live: Seq<(SpecKey, usize)>,
}

/// Planning before the first operation.
pub open spec fn plan_start(uses: Seq<usize>, values: nat) -> PlanState {
    PlanState {
        remaining: uses,
        slots: Seq::new(values, |i: int| None),
        live: Seq::empty(),
        peak: Seq::empty(),
        total: 0,
        high: 0,
        high_live: Seq::empty(),
    }
}

/// The value `v` gets a buffer of kind `k`.
pub open spec fn hold(st: PlanState, v: ValueId, k: SpecKey) -> PlanState {
    let live = inc(st.live, k);
    PlanState {
        live,
        peak: raise(st.peak, k, count(st.live, k) + 1),
        slots: st.slots.update(v.0 as int, Some(k)),
        ..st
    }
}

/// The value `v` gets a new buffer of kind `k`, whose bytes count.
pub open spec fn hold_new(st: PlanState, v: ValueId, k: SpecKey) -> PlanState {
    let held = hold(st, v, k);
    let total = st.total + k.bytes();
    if total > st.high {
        PlanState { total, high: total, high_live: held.live, ..held }
    } else {
        PlanState { total, ..held }
    }
}

/// The values `outs` get their buffers. The result of the step has one of its own.
pub open spec fn hold_outs(
    st: PlanState,
    outs: Seq<ValueId>,
    keys: Seq<SpecKey>,
    result: ValueId,
) -> PlanState
    decreases outs.len(),
{
    if outs.len() == 0 {
        st
    } else {
        let before = hold_outs(st, outs.drop_last(), keys, result);
        if outs.last() == result {
            before
        } else {
            hold_new(before, outs.last(), keys[outs.last().0 as int])
        }
    }
}

/// A reshape hands the buffer of `input` on to `out`.
pub open spec fn hand_over(
    st: PlanState,
    input: ValueId,
    out: ValueId,
    keys: Seq<SpecKey>,
    result: ValueId,
) -> Result<PlanState, GraphError> {
    match st.slots[input.0 as int] {
        None => Err(GraphError::ReshapeNotLive { value: input.0 }),
        Some(src) => {
            let dst = keys[out.0 as int];
            if src.numel() != dst.numel() {
                Err(GraphError::ReshapeNumel)
            } else {
                match dec(st.live, src) {
                    None => Err(GraphError::LiveUnderflow),
                    Some(live) => {
                        let taken = PlanState {
                            live,
                            slots: st.slots.update(input.0 as int, None),
                            ..st
                        };
                        if out == result {
                            Ok(taken)
                        } else {
                            Ok(hold(taken, out, dst))
                        }
                    },
                }
            }
        },
    }
}

/// The value `v` was read; after its last read its buffer is free.
pub open spec fn read_one(st: PlanState, v: ValueId, result: ValueId) -> Result<
    PlanState,
    GraphError,
> {
    let left = st.remaining[v.0 as int];
    if left == 0 {
        Err(GraphError::UseCount { value: v.0 })
    } else {
        let next = PlanState {
            remaining: st.remaining.update(v.0 as int, (left - 1) as usize),
            ..st
        };
        match st.slots[v.0 as int] {
            Some(k) => if left == 1 && v != result {
                match dec(st.live, k) {
                    None => Err(GraphError::LiveUnderflow),
                    Some(live) => Ok(
                        PlanState {
                            live,
                            slots: st.slots.update(v.0 as int, None),
                            total: if st.total > k.bytes() {
                                st.total - k.bytes()
                            } else {
                                0
                            },
                            ..next
                        },
                    ),
                }
            } else {
                Ok(next)
            },
            None => Ok(next),
        }
    }
}

/// The values `ins` were read.
pub open spec fn read_all(st: PlanState, ins: Seq<ValueId>, result: ValueId) -> Result<
    PlanState,
    GraphError,
>
    decreases ins.len(),
{
    if ins.len() == 0 {
        Ok(st)
    } else {
        match read_all(st, ins.drop_last(), result) {
            Err(e) => Err(e),
            Ok(next) => read_one(next, ins.last(), result),
        }
    }
}

/// An operation writes its values.
pub open spec fn write_op(
    st: PlanState,
    op: OpModel,
    keys: Seq<SpecKey>,
    result: ValueId,
) -> Result<PlanState, GraphError> {
    match op {
        Op::Reshape { input, out, .. } => match input {
            TensorRef::Value(v) => hand_over(st, v, out, keys, result),
            TensorRef::Weight(_) => Err(GraphError::ReshapeWeight),
        },
        _ => Ok(hold_outs(st, outs_of(op), keys, result)),
    }
}

/// One operation: it writes its values, then what it read may be free.
pub open spec fn plan_op(
    st: PlanState,
    op: OpModel,
    keys: Seq<SpecKey>,
    result: ValueId,
) -> Result<PlanState, GraphError> {
    match write_op(st, op, keys, result) {
        Err(e) => Err(e),
        Ok(next) => read_all(next, inputs_of(op), result),
    }
}

/// The first `k` operations.
pub open spec fn plan_ops(
    ops: Seq<OpModel>,
    k: nat,
    keys: Seq<SpecKey>,
    uses: Seq<usize>,
    result: ValueId,
) -> Result<PlanState, GraphError>
    decreases k,
{
    if k == 0 {
        Ok(plan_start(uses, keys.len()))
    } else {
        match plan_ops(ops, (k - 1) as nat, keys, uses, result) {
            Err(e) => Err(e),
            Ok(st) => plan_op(st, ops[k - 1], keys, result),
        }
    }
}

proof fn lemma_plan_error(
    ops: Seq<OpModel>,
    a: nat,
    b: nat,
    keys: Seq<SpecKey>,
    uses: Seq<usize>,
    result: ValueId,
)
    requires
        a <= b,
        plan_ops(ops, a, keys, uses, result) is Err,
    ensures
        plan_ops(ops, b, keys, uses, result) == plan_ops(ops, a, keys, uses, result),
    decreases b,
{
    if a < b {
        lemma_plan_error(ops, a, (b - 1) as nat, keys, uses, result);
    }
}

/// Bytes of the values `outs` together.
pub open spec fn bytes_of(outs: Seq<ValueId>, keys: Seq<SpecKey>) -> int
    decreases outs.len(),
{
    if outs.len() == 0 {
        0
    } else {
        bytes_of(outs.drop_last(), keys) + keys[outs.last().0 as int].bytes()
    }
}

/// Bytes of all values that the first `k` operations write together.
pub open spec fn written_bytes(ops: Seq<OpModel>, k: nat, keys: Seq<SpecKey>) -> int
    decreases k,
{
    if k == 0 {
        0
    } else {
        written_bytes(ops, (k - 1) as nat, keys) + bytes_of(outs_of(ops[k - 1]), keys)
    }
}

/// Every value that the operation names is one of `n`.
pub open spec fn op_in_range(op: OpModel, n: nat) -> bool {
    &&& forall|i: int| 0 <= i < inputs_of(op).len() ==> (#[trigger] inputs_of(op)[i]).0 < n
    &&& forall|i: int| 0 <= i < outs_of(op).len() ==> (#[trigger] outs_of(op)[i]).0 < n
}

/// What the operation gets buffers for can be counted: the elements of what a reshape makes,
/// the bytes of any other value but the result.
pub open spec fn op_sized(op: OpModel, keys: Seq<SpecKey>, result: ValueId) -> bool {
    match op {
        Op::Reshape { input, out, .. } => input is Value ==> keys[out.0 as int].countable(),
        _ => forall|i: int|
            0 <= i < outs_of(op).len() && #[trigger] outs_of(op)[i] != result ==> keys[outs_of(
                op,
            )[i].0 as int].sized(),
    }
}

/// The bytes that are live once operation `k` wrote its values can be counted, and so could
/// they be at any moment before.
pub open spec fn live_bytes_fit(
    ops: Seq<OpModel>,
    k: int,
    keys: Seq<SpecKey>,
    uses: Seq<usize>,
    result: ValueId,
) -> bool {
    plan_ops(ops, k as nat, keys, uses, result) matches Ok(st) ==> (write_op(
        st,
        ops[k],
        keys,
        result,
    ) matches Ok(next) ==> next.high <= usize::MAX)
}

/// The operations name values of the step only, and what is live at one time can be counted.
pub open spec fn plannable(
    ops: Seq<OpModel>,
    keys: Seq<SpecKey>,
    uses: Seq<usize>,
    result: ValueId,
) -> bool {
    &&& forall|i: int| 0 <= i < ops.len() ==> op_in_range(#[trigger] ops[i], keys.len())
    &&& forall|i: int| 0 <= i < ops.len() ==> op_sized(#[trigger] ops[i], keys, result)
    &&& forall|i: int|
        0 <= i < ops.len() ==> #[trigger] live_bytes_fit(ops, i, keys, uses, result)
    &&& 3 * ops.len() <= usize::MAX
}

proof fn lemma_bytes_nonneg(outs: Seq<ValueId>, keys: Seq<SpecKey>)
    ensures
        bytes_of(outs, keys) >= 0,
    decreases outs.len(),
{
    if outs.len() > 0 {
        lemma_bytes_nonneg(outs.drop_last(), keys);
    }
}

proof fn lemma_written_monotonic(ops: Seq<OpModel>, a: nat, b: nat, keys: Seq<SpecKey>)
    requires
        a <= b,
    ensures
        0 <= written_bytes(ops, a, keys) <= written_bytes(ops, b, keys),
    decreases b,
{
    if a < b {
        lemma_written_monotonic(ops, a, (b - 1) as nat, keys);
        lemma_bytes_nonneg(outs_of(ops[b - 1]), keys);
    } else if a > 0 {
        lemma_written_monotonic(ops, (a - 1) as nat, (a - 1) as nat, keys);
        lemma_bytes_nonneg(outs_of(ops[a - 1]), keys);
    }
}

/// Bounds on the counts of a state: names listed once, no count above `most`, and
/// bytes between zero and `bytes`.
pub open spec fn within(st: PlanState, most: int, bytes: int) -> bool {
    &&& distinct(st.live)
    &&& forall|k: SpecKey| #[trigger] count(st.live, k) <= most
    &&& 0 <= st.total <= bytes
    &&& 0 <= st.high <= bytes
}

pub proof fn lemma_inc(s: Seq<(SpecKey, usize)>, k: SpecKey)
    requires
        distinct(s),
        count(s, k) < usize::MAX,
    ensures
        distinct(inc(s, k)),
        forall|o: SpecKey| #[trigger]
            count(inc(s, k), o) == if o == k {
                count(s, k) + 1
            } else {
                count(s, o)
            },
{
    lemma_bind_distinct(s, k, (count(s, k) + 1) as usize);
    assert forall|o: SpecKey| #[trigger] count(inc(s, k), o) == if o == k {
        count(s, k) + 1
    } else {
        count(s, o)
    } by {
        law_bind_lookup(s, k, (count(s, k) + 1) as usize, o);
    }
}

pub proof fn lemma_dec(s: Seq<(SpecKey, usize)>, k: SpecKey)
    requires
        distinct(s),
        dec(s, k) is Some,
    ensures
        distinct(dec(s, k)->0),
        count(s, k) >= 1,
        forall|o: SpecKey| #[trigger]
            count(dec(s, k)->0, o) == if o == k {
                count(s, k) - 1
            } else {
                count(s, o)
            },
{
    if count(s, k) == 1 {
        law_unbind_lookup(s, k, k);
        assert forall|o: SpecKey| #[trigger] count(dec(s, k)->0, o) == if o == k {
            count(s, k) - 1
        } else {
            count(s, o)
        } by {
            law_unbind_lookup(s, k, o);
        }
    } else {
        lemma_bind_distinct(s, k, (count(s, k) - 1) as usize);
        assert forall|o: SpecKey| #[trigger] count(dec(s, k)->0, o) == if o == k {
            count(s, k) - 1
        } else {
            count(s, o)
        } by {
            law_bind_lookup(s, k, (count(s, k) - 1) as usize, o);
        }
    }
}

proof fn lemma_hold_within(st: PlanState, v: ValueId, k: SpecKey, most: int, bytes: int)
    requires
        within(st, most, bytes),
        most < usize::MAX,
    ensures
        within(hold(st, v, k), most + 1, bytes),
        within(hold_new(st, v, k), most + 1, bytes + k.bytes()),
{
    assert(count(st.live, k) <= most);
    lemma_inc(st.live, k);
    let live = inc(st.live, k);
    assert forall|o: SpecKey| #[trigger] count(live, o) <= most + 1 by {
        assert(count(st.live, o) <= most);
    }
}

proof fn lemma_hold_outs_within(
    st: PlanState,
    outs: Seq<ValueId>,
    keys: Seq<SpecKey>,
    result: ValueId,
    most: int,
    bytes: int,
)
    requires
        within(st, most, bytes),
        most + outs.len() <= usize::MAX,
    ensures
        within(
            hold_outs(st, outs, keys, result),
            most + outs.len(),
            bytes + bytes_of(outs, keys),
        ),
    decreases outs.len(),
{
    if outs.len() > 0 {
        lemma_hold_outs_within(st, outs.drop_last(), keys, result, most, bytes);
        let before = hold_outs(st, outs.drop_last(), keys, result);
        let k = keys[outs.last().0 as int];
        let m = most + outs.len() - 1;
        let b = bytes + bytes_of(outs.drop_last(), keys);
        if outs.last() == result {
            assert forall|o: SpecKey| #[trigger] count(before.live, o) <= m + 1 by {}
        } else {
            lemma_hold_within(before, outs.last(), k, m, b);
        }
    }
}

proof fn lemma_read_within(
    st: PlanState,
    ins: Seq<ValueId>,
    result: ValueId,
    most: int,
    bytes: int,
)
    requires
        within(st, most, bytes),
    ensures
        read_all(st, ins, result) matches Ok(next) ==> within(next, most, bytes),
    decreases ins.len(),
{
    if ins.len() > 0 {
        lemma_read_within(st, ins.drop_last(), result, most, bytes);
        match read_all(st, ins.drop_last(), result) {
            Ok(before) => {
                let v = ins.last();
                match read_one(before, v, result) {
                    Ok(next) => {
                        if next.live != before.live {
                            let k = before.slots[v.0 as int]->0;
                            lemma_dec(before.live, k);
                            assert forall|o: SpecKey| #[trigger]
                                count(next.live, o) <= most by {
                                assert(count(before.live, o) <= most);
                            }
                        }
                    },
                    Err(_) => {},
                }
            },
            Err(_) => {},
        }
    }
}

proof fn lemma_write_within(
    st: PlanState,
    op: OpModel,
    keys: Seq<SpecKey>,
    result: ValueId,
    most: int,
    bytes: int,
)
    requires
        within(st, most, bytes),
        0 <= most,
        most + 2 <= usize::MAX,
    ensures
        write_op(st, op, keys, result) matches Ok(next) ==> within(
            next,
            most + 2,
            bytes + bytes_of(outs_of(op), keys),
        ),
{
    lemma_bytes_nonneg(outs_of(op), keys);
    match op {
        Op::Reshape { input, out, .. } => {
            match input {
                TensorRef::Value(v) => {
                    match hand_over(st, v, out, keys, result) {
                        Ok(next) => {
                            let src = st.slots[v.0 as int]->0;
                            let live = dec(st.live, src)->0;
                            let taken = PlanState {
                                live,
                                slots: st.slots.update(v.0 as int, None),
                                ..st
                            };
                            lemma_dec(st.live, src);
                            assert forall|o: SpecKey| #[trigger] count(live, o) <= most by {
                                assert(count(st.live, o) <= most);
                            }
                            lemma_hold_within(taken, out, keys[out.0 as int], most, bytes);
                            assert forall|o: SpecKey| #[trigger]
                                count(next.live, o) <= most + 2 by {
                                assert(count(taken.live, o) <= most);
                            }
                        },
                        Err(_) => {},
                    }
                },
                TensorRef::Weight(_) => {},
            }
        },
        _ => {
            let outs = outs_of(op);
            lemma_hold_outs_within(st, outs, keys, result, most, bytes);
            let next = hold_outs(st, outs, keys, result);
            assert(outs.len() <= 2);
            assert forall|o: SpecKey| #[trigger] count(next.live, o) <= most + 2 by {
                assert(count(next.live, o) <= most + outs.len());
            }
        },
    }
}

proof fn lemma_plan_within(
    ops: Seq<OpModel>,
    k: nat,
    keys: Seq<SpecKey>,
    uses: Seq<usize>,
    result: ValueId,
)
    requires
        2 * ops.len() <= usize::MAX,
        k <= ops.len(),
    ensures
        plan_ops(ops, k, keys, uses, result) matches Ok(st) ==> within(
            st,
            2 * k as int,
            written_bytes(ops, k, keys),
        ),
    decreases k,
{
    if k == 0 {
        let st = plan_start(uses, keys.len());
        assert forall|o: SpecKey| #[trigger] count(st.live, o) <= 0 by {}
    } else {
        lemma_plan_within(ops, (k - 1) as nat, keys, uses, result);
        match plan_ops(ops, (k - 1) as nat, keys, uses, result) {
            Ok(st) => {
                let most = 2 * (k - 1);
                let bytes = written_bytes(ops, (k - 1) as nat, keys);
                let op = ops[k - 1];
                lemma_write_within(st, op, keys, result, most, bytes);
                match write_op(st, op, keys, result) {
                    Ok(next) => {
                        lemma_read_within(
                            next,
                            inputs_of(op),
                            result,
                            most + 2,
                            bytes + bytes_of(outs_of(op), keys),
                        );
                    },
                    Err(_) => {},
                }
            },
            Err(_) => {},
        }
    }
}

/// Where the bytes of all values together can be counted, those that are live at one time can.
pub proof fn lemma_written_bytes_bound(
    ops: Seq<OpModel>,
    k: nat,
    keys: Seq<SpecKey>,
    uses: Seq<usize>,
    result: ValueId,
)
    requires
        2 * ops.len() <= usize::MAX,
        k < ops.len(),
        written_bytes(ops, ops.len(), keys) <= usize::MAX,
    ensures
        live_bytes_fit(ops, k as int, keys, uses, result),
{
    lemma_plan_within(ops, k, keys, uses, result);
    lemma_written_monotonic(ops, (k + 1) as nat, ops.len(), keys);
    match plan_ops(ops, k, keys, uses, result) {
        Ok(st) => {
            lemma_write_within(
                st,
                ops[k as int],
                keys,
                result,
                2 * k as int,
                written_bytes(ops, k, keys),
            );
        },
        Err(_) => {},
    }
}

/// The buffers that a step needs: bytes when most are live, the live buffers at that
/// moment, and for each kind the most that are ever live.
#[derive(Debug)]
pub struct TensorPoolPlan {
    pub high_water_bytes: usize,
    pub high_water_live: SpecCounts,
    pub max_live_by_spec: SpecCounts,
}

/// Whether `plan` is what planning ended with.
pub open spec fn plan_of(st: PlanState, plan: TensorPoolPlan) -> bool {
    &&& plan.high_water_bytes == st.high
    &&& plan.high_water_live@ == st.high_live
    &&& plan.max_live_by_spec@ == st.peak
}

/// Planning, as it runs.
struct Planner {
    remaining: Vec<usize>,
    slots: Vec<Option<TensorSpec>>,
    live: SpecCounts,
    peak: SpecCounts,
    total: usize,
    high: usize,
    high_live: SpecCounts,
}

spec fn slot_views(s: Seq<Option<TensorSpec>>) -> Seq<Option<SpecKey>> {
    s.map_values(
        |o: Option<TensorSpec>|
            match o {
                Some(t) => Some(t@),
                None => None,
            },
    )
}

impl Planner {
    spec fn model(&self) -> PlanState {
        PlanState {
            remaining: self.remaining@,
            slots: slot_views(self.slots@),
            live: self.live@,
            peak: self.peak@,
            total: self.total as int,
            high: self.high as int,
            high_live: self.high_live@,
        }
    }

    fn start(use_counts: &[usize], values: usize) -> (r: Self)
        ensures
            r.model() == plan_start(use_counts@, values as nat),
    {
        let remaining: Vec<usize> = crate::quant_scratch::copy_dims(use_counts);
        let mut slots: Vec<Option<TensorSpec>> = Vec::new();
        let mut i: usize = 0;
        while i < values
            invariant
                i <= values,
                slots@.len() == i,
                forall|k: int| 0 <= k < i ==> #[trigger] slots@[k] is None,
            decreases values - i,
        {
            slots.push(None);
            i = i + 1;
        }
        let r = Planner {
            remaining,
            slots,
            live: SpecCounts::new(),
            peak: SpecCounts::new(),
            total: 0,
            high: 0,
            high_live: SpecCounts::new(),
        };
        assert(r.model() =~= plan_start(use_counts@, values as nat)) by {
            assert(slot_views(slots@) =~= Seq::new(values as nat, |i: int| None));
            assert(r.live@ =~= Seq::empty());
            assert(r.peak@ =~= Seq::empty());
            assert(r.high_live@ =~= Seq::empty());
        }
        r
    }

    fn hold(&mut self, v: ValueId, spec: &TensorSpec)
        requires
            v.0 < old(self).model().slots.len(),
            count(old(self).model().live, spec@) < usize::MAX,
        ensures
            final(self).model() == hold(old(self).model(), v, spec@),
    {
        increment_live_count(&mut self.live, &mut self.peak, spec);
        self.slots.set(v.idx(), Some(spec.copy()));
        assert(self.model().slots =~= old(self).model().slots.update(v.0 as int, Some(spec@)));
    }

    fn hold_new(&mut self, v: ValueId, spec: &TensorSpec)
        requires
            v.0 < old(self).model().slots.len(),
            count(old(self).model().live, spec@) < usize::MAX,
            spec@.sized(),
            old(self).model().total + spec@.bytes() <= usize::MAX,
        ensures
            final(self).model() == hold_new(old(self).model(), v, spec@),
    {
        self.hold(v, spec);
        self.total = self.total + spec.bytes();
        if self.total > self.high {
            self.high = self.total;
            self.high_live = self.live.copy();
        }
    }

    /// Takes the buffer of `v`, where it has one.
    fn take(&mut self, v: ValueId) -> (r: Option<TensorSpec>)
        requires
            v.0 < old(self).model().slots.len(),
        ensures
            match r {
                Some(t) => old(self).model().slots[v.0 as int] == Some(t@) && final(self).model()
                    == (PlanState {
                    slots: old(self).model().slots.update(v.0 as int, None),
                    ..old(self).model()
                }),
                None => old(self).model().slots[v.0 as int] is None && final(self).model() == old(
                    self,
                ).model(),
            },
    {
        let ghost before = self.model();
        let mut spec: Option<TensorSpec> = None;
        std::mem::swap(&mut spec, &mut self.slots[v.0]);
        assert(self.model().slots =~= before.slots.update(v.0 as int, None));
        assert(spec is None ==> self.model().slots =~= before.slots);
        spec
    }

    fn hand_over(
        &mut self,
        input: ValueId,
        out: ValueId,
        dst: &TensorSpec,
        keys: Ghost<Seq<SpecKey>>,
        result: ValueId,
        most: Ghost<int>,
        bytes: Ghost<int>,
    ) -> (r: Result<(), GraphError>)
        requires
            input.0 < old(self).model().slots.len(),
            out.0 < old(self).model().slots.len(),
            keys@[out.0 as int] == dst@,
            dst@.countable(),
            old(self).model().slots[input.0 as int] matches Some(k) ==> k.sized(),
            within(old(self).model(), most@, bytes@),
            most@ < usize::MAX,
        ensures
            match r {
                Ok(_) => hand_over(old(self).model(), input, out, keys@, result) == Ok::<
                    PlanState,
                    GraphError,
                >(final(self).model()),
                Err(e) => hand_over(old(self).model(), input, out, keys@, result) == Err::<
                    PlanState,
                    GraphError,
                >(e),
            },
    {
        let ghost before = self.model();
        match self.take(input) {
            None => Err(GraphError::ReshapeNotLive { value: input.0 }),
            Some(src) => {
                if src.numel() != dst.numel() {
                    return Err(GraphError::ReshapeNumel);
                }
                match decrement_live_count(&mut self.live, &src) {
                    Err(e) => {
                        return Err(e);
                    },
                    Ok(_) => {},
                }
                proof {
                    lemma_dec(before.live, src@);
                    assert(count(before.live, dst@) <= most@);
                }
                if out != result {
                    self.hold(out, dst);
                }
                Ok(())
            },
        }
    }

    fn read_one(&mut self, v: ValueId, result: ValueId) -> (r: Result<(), GraphError>)
        requires
            v.0 < old(self).model().slots.len(),
            v.0 < old(self).model().remaining.len(),
            old(self).model().slots[v.0 as int] matches Some(k) ==> k.sized(),
        ensures
            match r {
                Ok(_) => read_one(old(self).model(), v, result) == Ok::<PlanState, GraphError>(
                    final(self).model(),
                ),
                Err(e) => read_one(old(self).model(), v, result) == Err::<PlanState, GraphError>(
                    e,
                ),
            },
    {
        let left: usize = self.remaining[v.0];
        if left == 0 {
            return Err(GraphError::UseCount { value: v.0 });
        }
        self.remaining.set(v.0, left - 1);
        if left == 1 && v != result {
            match self.take(v) {
                Some(spec) => {
                    match decrement_live_count(&mut self.live, &spec) {
                        Err(e) => {
                            return Err(e);
                        },
                        Ok(_) => {},
                    }
                    let bytes: usize = spec.bytes();
                    self.total = if self.total > bytes {
                        self.total - bytes
                    } else {
                        0
                    };
                },
                None => {},
            }
        }
        Ok(())
    }
}

/// Every buffer that a state holds is one of the step's kinds.
spec fn slots_sized(st: PlanState) -> bool {
    forall|i: int|
        0 <= i < st.slots.len() ==> (#[trigger] st.slots[i] matches Some(k) ==> k.sized())
}

proof fn lemma_read_shape(st: PlanState, ins: Seq<ValueId>, result: ValueId)
    requires
        forall|i: int| 0 <= i < ins.len() ==> (#[trigger] ins[i]).0 < st.slots.len(),
        st.slots.len() == st.remaining.len(),
    ensures
        read_all(st, ins, result) matches Ok(next) ==> {
            &&& next.slots.len() == st.slots.len()
            &&& next.remaining.len() == st.remaining.len()
            &&& slots_sized(st) ==> slots_sized(next)
        },
    decreases ins.len(),
{
    if ins.len() > 0 {
        assert forall|i: int| 0 <= i < ins.drop_last().len() implies (
        #[trigger] ins.drop_last()[i]).0 < st.slots.len() by {
            assert(ins.drop_last()[i] == ins[i]);
        }
        lemma_read_shape(st, ins.drop_last(), result);
        match read_all(st, ins.drop_last(), result) {
            Ok(before) => {
                assert(ins.last() == ins[ins.len() - 1]);
                match read_one(before, ins.last(), result) {
                    Ok(next) => {
                        if slots_sized(st) {
                            assert forall|i: int| 0 <= i < next.slots.len() implies (
                            #[trigger] next.slots[i] matches Some(k) ==> k.sized()) by {
                                assert(next.slots[i] is None || next.slots[i] == before.slots[i]);
                            }
                        }
                    },
                    Err(_) => {},
                }
            },
            Err(_) => {},
        }
    }
}

proof fn lemma_hold_outs_shape(
    st: PlanState,
    outs: Seq<ValueId>,
    keys: Seq<SpecKey>,
    result: ValueId,
)
    requires
        slots_sized(st),
        st.slots.len() == keys.len(),
        forall|i: int| 0 <= i < outs.len() ==> (#[trigger] outs[i]).0 < keys.len(),
        forall|i: int|
            0 <= i < outs.len() && #[trigger] outs[i] != result ==> keys[outs[i].0 as int].sized(),
    ensures
        hold_outs(st, outs, keys, result).slots.len() == st.slots.len(),
        hold_outs(st, outs, keys, result).remaining == st.remaining,
        slots_sized(hold_outs(st, outs, keys, result)),
    decreases outs.len(),
{
    if outs.len() > 0 {
        let head = outs.drop_last();
        assert forall|i: int| 0 <= i < head.len() implies (#[trigger] head[i]).0 < keys.len() by {
            assert(head[i] == outs[i]);
        }
        assert forall|i: int| 0 <= i < head.len() && #[trigger] head[i] != result implies keys[
            head[i].0 as int
        ].sized() by {
            assert(head[i] == outs[i]);
        }
        lemma_hold_outs_shape(st, head, keys, result);
        let before = hold_outs(st, head, keys, result);
        let next = hold_outs(st, outs, keys, result);
        assert(outs.last() == outs[outs.len() - 1]);
        assert forall|i: int| 0 <= i < next.slots.len() implies (
        #[trigger] next.slots[i] matches Some(k) ==> k.sized()) by {
            assert(next.slots[i] == before.slots[i] || next.slots[i] == Some(
                keys[outs.last().0 as int],
            ));
        }
    }
}

proof fn lemma_plan_shape(
    ops: Seq<OpModel>,
    k: nat,
    keys: Seq<SpecKey>,
    uses: Seq<usize>,
    result: ValueId,
)
    requires
        forall|i: int| 0 <= i < ops.len() ==> op_in_range(#[trigger] ops[i], keys.len()),
        forall|i: int| 0 <= i < ops.len() ==> op_sized(#[trigger] ops[i], keys, result),
        uses.len() == keys.len(),
        k <= ops.len(),
    ensures
        plan_ops(ops, k, keys, uses, result) matches Ok(st) ==> {
            &&& st.slots.len() == keys.len()
            &&& st.remaining.len() == uses.len()
            &&& slots_sized(st)
        },
    decreases k,
{
    if k > 0 {
        lemma_plan_shape(ops, (k - 1) as nat, keys, uses, result);
        match plan_ops(ops, (k - 1) as nat, keys, uses, result) {
            Ok(st) => {
                let op = ops[k - 1];
                assert(op_in_range(op, keys.len()));
                lemma_write_shape(st, op, keys, result);
                match write_op(st, op, keys, result) {
                    Ok(next) => {
                        lemma_read_shape(next, inputs_of(op), result);
                    },
                    Err(_) => {},
                }
            },
            Err(_) => {},
        }
    }
}

proof fn lemma_write_shape(st: PlanState, op: OpModel, keys: Seq<SpecKey>, result: ValueId)
    requires
        slots_sized(st),
        st.slots.len() == keys.len(),
        op_in_range(op, keys.len()),
        op_sized(op, keys, result),
    ensures
        write_op(st, op, keys, result) matches Ok(next) ==> {
            &&& next.slots.len() == st.slots.len()
            &&& next.remaining == st.remaining
            &&& slots_sized(next)
        },
{
    match op {
        Op::Reshape { input, out, .. } => {
            match input {
                TensorRef::Value(v) => {
                    match hand_over(st, v, out, keys, result) {
                        Ok(next) => {
                            assert(outs_of(op)[0] == out);
                            assert(inputs_of(op)[0] == v);
                            assert forall|i: int| 0 <= i < next.slots.len() implies (
                            #[trigger] next.slots[i] matches Some(k) ==> k.sized()) by {
                                assert(next.slots[i] is None || next.slots[i] == st.slots[i]
                                    || next.slots[i] == Some(keys[out.0 as int]));
                            }
                        },
                        Err(_) => {},
                    }
                },
                TensorRef::Weight(_) => {},
            }
        },
        _ => {
            lemma_hold_outs_shape(st, outs_of(op), keys, result);
        },
    }
}

/// Reads a list of values.
fn read_values(planner: &mut Planner, ins: &Vec<ValueId>, result: ValueId) -> (r: Result<
    (),
    GraphError,
>)
    requires
        slots_sized(old(planner).model()),
        old(planner).model().slots.len() == old(planner).model().remaining.len(),
        forall|i: int|
            0 <= i < ins@.len() ==> (#[trigger] ins@[i]).0 < old(planner).model().slots.len(),
    ensures
        match r {
            Ok(_) => read_all(old(planner).model(), ins@, result) == Ok::<PlanState, GraphError>(
                final(planner).model(),
            ),
            Err(e) => read_all(old(planner).model(), ins@, result) == Err::<PlanState, GraphError>(
                e,
            ),
        },
{
    let ghost st = planner.model();
    let mut i: usize = 0;
    assert(ins@.subrange(0, 0) =~= Seq::empty());
    while i < ins.len()
        invariant
            i <= ins@.len(),
            st == old(planner).model(),
            slots_sized(st),
            st.slots.len() == st.remaining.len(),
            forall|k: int| 0 <= k < ins@.len() ==> (#[trigger] ins@[k]).0 < st.slots.len(),
            read_all(st, ins@.subrange(0, i as int), result) == Ok::<PlanState, GraphError>(
                planner.model(),
            ),
        decreases ins@.len() - i,
    {
        let ghost head = ins@.subrange(0, i as int);
        let ghost next = ins@.subrange(0, i + 1);
        proof {
            assert(next.drop_last() =~= head);
            assert(next.last() == ins@[i as int]);
            assert forall|k: int| 0 <= k < head.len() implies (#[trigger] head[k]).0
                < st.slots.len() by {
                assert(head[k] == ins@[k]);
            }
            lemma_read_shape(st, head, result);
        }
        match planner.read_one(ins[i], result) {
            Ok(_) => {},
            Err(e) => {
                proof {
                    lemma_read_error(st, ins@, i + 1, result);
                }
                return Err(e);
            },
        }
        i = i + 1;
    }
    assert(ins@.subrange(0, ins@.len() as int) =~= ins@);
    Ok(())
}

proof fn lemma_read_error(st: PlanState, ins: Seq<ValueId>, k: int, result: ValueId)
    requires
        0 <= k <= ins.len(),
        read_all(st, ins.subrange(0, k), result) is Err,
    ensures
        read_all(st, ins, result) == read_all(st, ins.subrange(0, k), result),
    decreases ins.len() - k,
{
    if k < ins.len() {
        assert(ins.subrange(0, k + 1).drop_last() =~= ins.subrange(0, k));
        lemma_read_error(st, ins, k + 1, result);
    } else {
        assert(ins.subrange(0, k) =~= ins);
    }
}

/// Writes the values of one operation.
fn write_values(
    planner: &mut Planner,
    op: &GraphOp,
    specs: &[TensorSpec],
    result: ValueId,
    most: Ghost<int>,
    bytes: Ghost<int>,
) -> (r: Result<(), GraphError>)
    requires
        old(planner).model().slots.len() == specs@.len(),
        slots_sized(old(planner).model()),
        op_in_range(op@, specs@.len()),
        op_sized(op@, spec_keys(specs@), result),
        within(old(planner).model(), most@, bytes@),
        most@ >= 0,
        most@ + 2 <= usize::MAX,
        write_op(old(planner).model(), op@, spec_keys(specs@), result) matches Ok(next)
            ==> next.high <= usize::MAX,
    ensures
        match r {
            Ok(_) => write_op(old(planner).model(), op@, spec_keys(specs@), result) == Ok::<
                PlanState,
                GraphError,
            >(final(planner).model()),
            Err(e) => write_op(old(planner).model(), op@, spec_keys(specs@), result) == Err::<
                PlanState,
                GraphError,
            >(e),
        },
{
    let ghost keys = spec_keys(specs@);
    let ghost st = planner.model();
    match op {
        Op::Reshape { input, out, .. } => {
            match *input {
                TensorRef::Value(v) => {
                    assert(inputs_of(op@)[0] == v);
                    assert(outs_of(op@)[0] == *out);
                    assert(keys[out.0 as int].countable());
                    return planner.hand_over(
                        v,
                        *out,
                        &specs[out.0],
                        Ghost(keys),
                        result,
                        most,
                        bytes,
                    );
                },
                TensorRef::Weight(_) => {
                    return Err(GraphError::ReshapeWeight);
                },
            }
        },
        _ => {},
    }
    let ghost outs = outs_of(op@);
    let ghost first = match out_of(op@) {
        Some(v) => seq![v],
        None => Seq::empty(),
    };
    let ghost written = hold_outs(st, outs, keys, result);
    let ghost begun = hold_outs(st, first, keys, result);
    assert(hold_outs(st, Seq::empty(), keys, result) == st);
    proof {
        lemma_hold_outs_within(st, first, keys, result, most@, bytes@);
        assert forall|i: int| 0 <= i < first.len() implies (#[trigger] first[i]).0 < keys.len() by {
            assert(first[i] == outs[i]);
        }
        if extra_of(op@).len() > 0 {
            assert(outs.drop_last() =~= first);
        } else {
            assert(outs =~= first);
        }
        assert(begun.high <= written.high <= usize::MAX);
    }
    match op.output() {
        Some(v) => {
            assert(outs[0] == v);
            assert(seq![v].drop_last() =~= Seq::empty());
            assert(seq![v].last() == v);
            assert(keys[v.0 as int] == specs@[v.0 as int]@);
            if v != result {
                assert(keys[v.0 as int].sized());
                assert(count(st.live, specs@[v.0 as int]@) <= most@);
                assert(begun == hold_new(st, v, keys[v.0 as int]));
                planner.hold_new(v, &specs[v.0]);
            }
        },
        None => {},
    }
    assert(planner.model() == begun);
    let extras: Vec<ValueId> = op.extra_outputs();
    if extras.len() > 0 {
        let v: ValueId = extras[0];
        assert(extras@.len() == 1);
        assert(outs.last() == v);
        assert(outs[outs.len() - 1] == v);
        assert(keys[v.0 as int] == specs@[v.0 as int]@);
        if v != result {
            assert(keys[v.0 as int].sized());
            assert(count(planner.model().live, specs@[v.0 as int]@) <= most@ + first.len());
            assert(written == hold_new(begun, v, keys[v.0 as int]));
            planner.hold_new(v, &specs[v.0]);
        }
    }
    Ok(())
}

/// Plans the buffers of a step: each value holds one from the operation that writes
/// it to the last that reads it; a reshape hands its buffer on; the result has one of
/// its own.
pub fn compute_pool_plan(
    ops: &[GraphOp],
    specs: &[TensorSpec],
    use_counts: &[usize],
    final_value: ValueId,
) -> (r: Result<TensorPoolPlan, GraphError>)
    requires
        plannable(op_models(ops@), spec_keys(specs@), use_counts@, final_value),
        use_counts@.len() == specs@.len(),
    ensures
        match r {
            Ok(plan) => plan_ops(
                op_models(ops@),
                ops@.len(),
                spec_keys(specs@),
                use_counts@,
                final_value,
            ) matches Ok(st) && plan_of(st, plan),
            Err(e) => plan_ops(
                op_models(ops@),
                ops@.len(),
                spec_keys(specs@),
                use_counts@,
                final_value,
            ) == Err::<PlanState, GraphError>(e),
        },
{
    let ghost all = op_models(ops@);
    let ghost keys = spec_keys(specs@);
    let ghost uses = use_counts@;
    let mut planner = Planner::start(use_counts, specs.len());
    let mut i: usize = 0;
    while i < ops.len()
        invariant
            i <= ops.len(),
            all == op_models(ops@),
            keys == spec_keys(specs@),
            uses == use_counts@,
            uses.len() == specs@.len(),
            plannable(all, keys, uses, final_value),
            plan_ops(all, i as nat, keys, uses, final_value) == Ok::<PlanState, GraphError>(
                planner.model(),
            ),
        decreases ops.len() - i,
    {
        let op: &GraphOp = &ops[i];
        let ghost st = planner.model();
        let ghost most = 2 * i as int;
        let ghost bytes = written_bytes(all, i as nat, keys);
        proof {
            lemma_plan_within(all, i as nat, keys, uses, final_value);
            lemma_plan_shape(all, i as nat, keys, uses, final_value);
            assert(op@ == all[i as int]);
            assert(op_in_range(all[i as int], keys.len()));
            assert(op_sized(all[i as int], keys, final_value));
            assert(live_bytes_fit(all, i as int, keys, uses, final_value));
        }
        match write_values(&mut planner, op, specs, final_value, Ghost(most), Ghost(bytes)) {
            Ok(_) => {},
            Err(e) => {
                proof {
                    lemma_plan_error(all, (i + 1) as nat, all.len(), keys, uses, final_value);
                }
                return Err(e);
            },
        }
        proof {
            lemma_write_shape(st, op@, keys, final_value);
        }
        let ins: Vec<ValueId> = op.value_inputs();
        match read_values(&mut planner, &ins, final_value) {
            Ok(_) => {},
            Err(e) => {
                proof {
                    lemma_plan_error(all, (i + 1) as nat, all.len(), keys, uses, final_value);
                }
                return Err(e);
            },
        }
        i = i + 1;
    }
    Ok(
        TensorPoolPlan {
            high_water_bytes: planner.high,
            high_water_live: planner.high_live,
            max_live_by_spec: planner.peak,
        },
    )
}

} // verus!
