//! Running a step: which buffers each operation reads and writes.
use crate::gguf::{dims_product, product_of_dims};
use crate::graph::{
    inputs_of, outs_of, GraphOp, LayerWeightSlot, Op, OpModel, SpecKey, TensorRef, TensorSpec,
    ValueId, WeightRef,
};
use crate::pool::{given_back, keeps, pick, RunError, TensorPool};
use crate::pool_plan::op_in_range;
use crate::step_graph::StepGraph;
use vstd::prelude::*;

verus! {

/// A buffer of the device, by its number, and its element count.
#[derive(Clone, Copy, Debug, PartialEq, Eq, Structural)]
pub struct Held {
    pub id: usize,
    pub numel: usize,
}

/// Where the result of a step is written.
#[derive(Clone, Copy, Debug, PartialEq, Eq, Structural)]
pub enum FinalLogitsPolicy {
    /// Into a new buffer.
    Allocate,
    /// Into this buffer.
    Preallocated(Held),
    /// The buffer was handed out already.
    Taken,
}

/// What an operation reads.
#[derive(Clone, Copy, Debug, PartialEq, Eq, Structural)]
pub enum Arg {
    Buffer(Held),
    Weight(WeightRef),
}

/// A buffer that an operation writes; a fresh one is still to be allocated.
#[derive(Clone, Copy, Debug, PartialEq, Eq, Structural)]
pub struct Grant {
    pub held: Held,
    pub fresh: bool,
}

/// The buffers of one operation.
#[derive(Debug)]
pub struct Launch {
    pub args: Vec<Arg>,
    pub outs: Vec<Grant>,
}

/// What a launch is.
#[verifier::ext_equal]
pub struct LaunchModel {
    pub args: Seq<Arg>,
    pub outs: Seq<Grant>,
}

impl View for Launch {
    type V = LaunchModel;

    open spec fn view(&self) -> LaunchModel {
        LaunchModel { args: self.args@, outs: self.outs@ }
    }
}

/// Where a run stands: the buffer of each value, reads that are still to come, the free
/// buffers, those that the pool did not keep, the number of the next new buffer, and
/// where the result goes.
#[verifier::ext_equal]
pub struct RunState {
    pub slots: Seq<Option<Held>>,
    pub left: Seq<usize>,
    pub free: Seq<(SpecKey, usize)>,
    pub dropped: Seq<usize>,
    pub next: int,
    pub policy: FinalLogitsPolicy,
}

/// What an operation reads, in order, and whether as a matrix.
pub open spec fn args_of<S>(op: Op<S>) -> Seq<(bool, TensorRef)> {
    match op {
        Op::EmbeddingBatch { .. } => Seq::empty(),
        Op::MatMul { matrix, rhs, .. } => seq![(true, matrix), (false, rhs)],
        Op::MatVec { matrix, vector, .. } => seq![(true, matrix), (false, vector)],
        Op::Add { lhs, rhs, .. } => seq![(false, lhs), (false, rhs)],
        Op::SiluMul { gate, up, .. } => seq![(false, gate), (false, up)],
        Op::RmsNorm { x, weight, .. } => seq![(false, x), (false, weight)],
        Op::Reshape { input, .. } => seq![(false, input)],
        Op::Rope { x, .. } => seq![(false, x)],
        Op::KvCacheUpdate { new_k, new_v, .. } => seq![(false, new_k), (false, new_v)],
        Op::QkNormRopeKvPrefill { q, k, v, .. } => seq![(false, q), (false, k), (false, v)],
        Op::Attention { q, .. } => seq![(false, q)],
        Op::GatherRow { src, .. } => seq![(false, src)],
        Op::SliceCols { input, .. } => seq![(false, input)],
        Op::MatMulSlice { matrix, rhs, .. } => seq![(true, matrix), (false, rhs)],
        Op::AddRmsNorm { residual, x, weight, .. } => seq![
            (false, residual),
            (false, x),
            (false, weight),
        ],
    }
}

/// Whether a weight is a projection matrix; the others are norms.
pub open spec fn is_matrix(w: WeightRef) -> bool {
    match w {
        WeightRef::LmHead => true,
        WeightRef::Norm => false,
        WeightRef::Layer { slot, .. } => match slot {
            LayerWeightSlot::QkvProj => true,
            LayerWeightSlot::OProj => true,
            LayerWeightSlot::GateUpProj => true,
            LayerWeightSlot::DownProj => true,
            _ => false,
        },
    }
}

/// What stands behind a reference.
pub open spec fn resolve(slots: Seq<Option<Held>>, a: (bool, TensorRef)) -> Result<Arg, RunError> {
    match a.1 {
        TensorRef::Value(v) => match slots[v.0 as int] {
            Some(h) => Ok(Arg::Buffer(h)),
            None => Err(RunError::MissingValue { value: v.0 }),
        },
        TensorRef::Weight(w) => if a.0 == is_matrix(w) {
            Ok(Arg::Weight(w))
        } else if a.0 {
            Err(RunError::NotAMatrix)
        } else {
            Err(RunError::NotATensor)
        },
    }
}

/// What stands behind the references of an operation.
pub open spec fn resolve_all(slots: Seq<Option<Held>>, args: Seq<(bool, TensorRef)>) -> Result<
    Seq<Arg>,
    RunError,
>
    decreases args.len(),
{
    if args.len() == 0 {
        Ok(Seq::empty())
    } else {
        match resolve_all(slots, args.drop_last()) {
            Err(e) => Err(e),
            Ok(s) => match resolve(slots, args.last()) {
                Err(e) => Err(e),
                Ok(a) => Ok(s.push(a)),
            },
        }
    }
}

/// A new buffer of `numel` elements.
pub open spec fn fresh(st: RunState, numel: int) -> (RunState, Grant) {
    (
        RunState { next: st.next + 1, ..st },
        Grant { held: Held { id: st.next as usize, numel: numel as usize }, fresh: true },
    )
}

/// A buffer for the value `v`.
pub open spec fn grant(st: RunState, v: ValueId, keys: Seq<SpecKey>, result: ValueId) -> Result<
    (RunState, Grant),
    RunError,
> {
    let k = keys[v.0 as int];
    if v == result {
        match st.policy {
            FinalLogitsPolicy::Allocate => Ok(fresh(st, k.numel())),
            FinalLogitsPolicy::Preallocated(held) => Ok(
                (
                    RunState { policy: FinalLogitsPolicy::Taken, ..st },
                    Grant { held, fresh: false },
                ),
            ),
            FinalLogitsPolicy::Taken => Err(RunError::MissingResultBuffer),
        }
    } else {
        let i = pick(st.free, k);
        if i >= 0 {
            Ok(
                (
                    RunState { free: st.free.remove(i), ..st },
                    Grant {
                        held: Held { id: st.free[i].1, numel: k.numel() as usize },
                        fresh: false,
                    },
                ),
            )
        } else {
            Ok(fresh(st, k.numel()))
        }
    }
}

/// Buffers for the values that an operation writes.
pub open spec fn grant_all(
    st: RunState,
    outs: Seq<ValueId>,
    keys: Seq<SpecKey>,
    result: ValueId,
) -> Result<(RunState, Seq<Grant>), RunError>
    decreases outs.len(),
{
    if outs.len() == 0 {
        Ok((st, Seq::empty()))
    } else {
        match grant_all(st, outs.drop_last(), keys, result) {
            Err(e) => Err(e),
            Ok((mid, s)) => match grant(mid, outs.last(), keys, result) {
                Err(e) => Err(e),
                Ok((end, g)) => Ok((end, s.push(g))),
            },
        }
    }
}

/// The values hold the buffers that they were granted.
pub open spec fn fill(
    slots: Seq<Option<Held>>,
    outs: Seq<ValueId>,
    grants: Seq<Grant>,
) -> Seq<Option<Held>>
    decreases outs.len(),
{
    if outs.len() == 0 {
        slots
    } else {
        fill(slots, outs.drop_last(), grants).update(
            outs.last().0 as int,
            Some(grants[outs.len() - 1].held),
        )
    }
}

/// The value `v` was read; after its last read its buffer goes back to the pool.
pub open spec fn release(
    st: RunState,
    v: ValueId,
    keys: Seq<SpecKey>,
    caps: Seq<(SpecKey, usize)>,
    result: ValueId,
) -> Result<RunState, RunError> {
    let left = st.left[v.0 as int];
    let k = keys[v.0 as int];
    if left == 0 {
        Err(RunError::UseCount { value: v.0 })
    } else {
        let next = RunState { left: st.left.update(v.0 as int, (left - 1) as usize), ..st };
        match st.slots[v.0 as int] {
            Some(h) => if left == 1 && v != result {
                if h.numel != k.numel() {
                    Err(
                        RunError::CheckinNumel { numel: h.numel, expected: k.numel() as usize },
                    )
                } else {
                    Ok(
                        RunState {
                            slots: st.slots.update(v.0 as int, None),
                            free: given_back(st.free, caps, k, h.id),
                            dropped: if keeps(st.free, caps, k) {
                                st.dropped
                            } else {
                                st.dropped.push(h.id)
                            },
                            ..next
                        },
                    )
                }
            } else {
                Ok(next)
            },
            None => Ok(next),
        }
    }
}

/// The values `ins` were read.
pub open spec fn release_all(
    st: RunState,
    ins: Seq<ValueId>,
    keys: Seq<SpecKey>,
    caps: Seq<(SpecKey, usize)>,
    result: ValueId,
) -> Result<RunState, RunError>
    decreases ins.len(),
{
    if ins.len() == 0 {
        Ok(st)
    } else {
        match release_all(st, ins.drop_last(), keys, caps, result) {
            Err(e) => Err(e),
            Ok(next) => release(next, ins.last(), keys, caps, result),
        }
    }
}

/// A reshape: the buffer of `input` goes over to `out`, or, where `input` is still to be
/// read elsewhere, a copy of it.
pub open spec fn reshape(
    st: RunState,
    input: TensorRef,
    shape: Seq<usize>,
    out: ValueId,
) -> Result<(RunState, LaunchModel), RunError> {
    match input {
        TensorRef::Weight(_) => Err(RunError::ReshapeWeight),
        TensorRef::Value(v) => match st.slots[v.0 as int] {
            None => Err(RunError::MissingReshapeInput { value: v.0 }),
            Some(h) => {
                let (mid, g) = if st.left[v.0 as int] == 1 {
                    (
                        RunState { slots: st.slots.update(v.0 as int, None), ..st },
                        Grant { held: h, fresh: false },
                    )
                } else {
                    fresh(st, h.numel as int)
                };
                if dims_product(shape) != Some(h.numel) {
                    Err(RunError::ReshapeNumel)
                } else {
                    Ok(
                        (
                            RunState {
                                slots: mid.slots.update(out.0 as int, Some(g.held)),
                                ..mid
                            },
                            LaunchModel { args: seq![Arg::Buffer(h)], outs: seq![g] },
                        ),
                    )
                }
            },
        },
    }
}

/// An operation gets the buffers that it reads and writes.
pub open spec fn launch_op(
    st: RunState,
    op: OpModel,
    keys: Seq<SpecKey>,
    result: ValueId,
) -> Result<(RunState, LaunchModel), RunError> {
    match op {
        Op::Reshape { input, shape, out } => reshape(st, input, shape, out),
        _ => match resolve_all(st.slots, args_of(op)) {
            Err(e) => Err(e),
            Ok(args) => match grant_all(st, outs_of(op), keys, result) {
                Err(e) => Err(e),
                Ok((mid, outs)) => Ok(
                    (
                        RunState { slots: fill(mid.slots, outs_of(op), outs), ..mid },
                        LaunchModel { args, outs },
                    ),
                ),
            },
        },
    }
}

/// One operation: it gets its buffers, and then what it read may be free.
pub open spec fn run_op(
    st: RunState,
    op: OpModel,
    keys: Seq<SpecKey>,
    caps: Seq<(SpecKey, usize)>,
    result: ValueId,
) -> Result<(RunState, LaunchModel), RunError> {
    match launch_op(st, op, keys, result) {
        Err(e) => Err(e),
        Ok((mid, launch)) => match release_all(mid, inputs_of(op), keys, caps, result) {
            Err(e) => Err(e),
            Ok(end) => Ok((end, launch)),
        },
    }
}

/// The first `k` operations.
pub open spec fn run_ops(
    st: RunState,
    ops: Seq<OpModel>,
    k: nat,
    keys: Seq<SpecKey>,
    caps: Seq<(SpecKey, usize)>,
    result: ValueId,
) -> Result<RunState, RunError>
    decreases k,
{
    if k == 0 {
        Ok(st)
    } else {
        match run_ops(st, ops, (k - 1) as nat, keys, caps, result) {
            Err(e) => Err(e),
            Ok(mid) => match run_op(mid, ops[k - 1], keys, caps, result) {
                Err(e) => Err(e),
                Ok((end, _)) => Ok(end),
            },
        }
    }
}

/// A run before its first operation.
pub open spec fn run_start(
    uses: Seq<usize>,
    values: nat,
    free: Seq<(SpecKey, usize)>,
    next: int,
    policy: FinalLogitsPolicy,
) -> RunState {
    RunState {
        slots: Seq::new(values, |i: int| None),
        left: uses,
        free,
        dropped: Seq::empty(),
        next,
        policy,
    }
}

/// A run of a step.
#[derive(Debug)]
pub struct StepRun {
    pub values: Vec<Option<Held>>,
    pub remaining: Vec<usize>,
    pub pool: TensorPool,
    pub dropped: Vec<usize>,
    pub next: usize,
    pub policy: FinalLogitsPolicy,
}

impl View for StepRun {
    type V = RunState;

    open spec fn view(&self) -> RunState {
        RunState {
            slots: self.values@,
            left: self.remaining@,
            free: self.pool.buffers(),
            dropped: self.dropped@,
            next: self.next as int,
            policy: self.policy,
        }
    }
}

/// What an operation reads, in order, and whether as a matrix.
pub fn arguments(op: &GraphOp) -> (r: Vec<(bool, TensorRef)>)
    ensures
        r@ == args_of(op@),
{
    let r: Vec<(bool, TensorRef)> = match op {
        Op::EmbeddingBatch { .. } => vec![],
        Op::MatMul { matrix, rhs, .. } => vec![(true, *matrix), (false, *rhs)],
        Op::MatVec { matrix, vector, .. } => vec![(true, *matrix), (false, *vector)],
        Op::Add { lhs, rhs, .. } => vec![(false, *lhs), (false, *rhs)],
        Op::SiluMul { gate, up, .. } => vec![(false, *gate), (false, *up)],
        Op::RmsNorm { x, weight, .. } => vec![(false, *x), (false, *weight)],
        Op::Reshape { input, .. } => vec![(false, *input)],
        Op::Rope { x, .. } => vec![(false, *x)],
        Op::KvCacheUpdate { new_k, new_v, .. } => vec![(false, *new_k), (false, *new_v)],
        Op::QkNormRopeKvPrefill { q, k, v, .. } => vec![(false, *q), (false, *k), (false, *v)],
        Op::Attention { q, .. } => vec![(false, *q)],
        Op::GatherRow { src, .. } => vec![(false, *src)],
        Op::SliceCols { input, .. } => vec![(false, *input)],
        Op::MatMulSlice { matrix, rhs, .. } => vec![(true, *matrix), (false, *rhs)],
        Op::AddRmsNorm { residual, x, weight, .. } => vec![
            (false, *residual),
            (false, *x),
            (false, *weight),
        ],
    };
    assert(r@ =~= args_of(op@));
    r
}

/// Whether a weight is a projection matrix.
pub fn weight_is_matrix(w: WeightRef) -> (r: bool)
    ensures
        r == is_matrix(w),
{
    match w {
        WeightRef::LmHead => true,
        WeightRef::Norm => false,
        WeightRef::Layer { slot, .. } => match slot {
            LayerWeightSlot::QkvProj => true,
            LayerWeightSlot::OProj => true,
            LayerWeightSlot::GateUpProj => true,
            LayerWeightSlot::DownProj => true,
            _ => false,
        },
    }
}

/// The references of an operation name values of the step only.
spec fn args_in_range(args: Seq<(bool, TensorRef)>, n: nat) -> bool {
    forall|i: int|
        0 <= i < args.len() ==> match (#[trigger] args[i]).1 {
            TensorRef::Value(v) => v.0 < n,
            TensorRef::Weight(_) => true,
        }
}

proof fn lemma_args_in_range(op: OpModel, n: nat)
    requires
        op_in_range(op, n),
    ensures
        args_in_range(args_of(op), n),
{
    let args = args_of(op);
    let ins = inputs_of(op);
    assert forall|i: int| 0 <= i < args.len() implies match (#[trigger] args[i]).1 {
        TensorRef::Value(v) => v.0 < n,
        TensorRef::Weight(_) => true,
    } by {
        let before: int = if i == 0 {
            0
        } else if i == 1 {
            args[0].1.values().len() as int
        } else {
            args[0].1.values().len() as int + args[1].1.values().len()
        };
        if args[i].1 is Value {
            assert(ins[before] == args[i].1->Value_0);
        }
    }
}

proof fn lemma_resolve_error(slots: Seq<Option<Held>>, args: Seq<(bool, TensorRef)>, k: int)
    requires
        0 <= k <= args.len(),
        resolve_all(slots, args.subrange(0, k)) is Err,
    ensures
        resolve_all(slots, args) == resolve_all(slots, args.subrange(0, k)),
    decreases args.len() - k,
{
    if k < args.len() {
        assert(args.subrange(0, k + 1).drop_last() =~= args.subrange(0, k));
        lemma_resolve_error(slots, args, k + 1);
    } else {
        assert(args.subrange(0, k) =~= args);
    }
}

proof fn lemma_grant_error(
    st: RunState,
    outs: Seq<ValueId>,
    k: int,
    keys: Seq<SpecKey>,
    result: ValueId,
)
    requires
        0 <= k <= outs.len(),
        grant_all(st, outs.subrange(0, k), keys, result) is Err,
    ensures
        grant_all(st, outs, keys, result) == grant_all(st, outs.subrange(0, k), keys, result),
    decreases outs.len() - k,
{
    if k < outs.len() {
        assert(outs.subrange(0, k + 1).drop_last() =~= outs.subrange(0, k));
        lemma_grant_error(st, outs, k + 1, keys, result);
    } else {
        assert(outs.subrange(0, k) =~= outs);
    }
}

proof fn lemma_release_error(
    st: RunState,
    ins: Seq<ValueId>,
    k: int,
    keys: Seq<SpecKey>,
    caps: Seq<(SpecKey, usize)>,
    result: ValueId,
)
    requires
        0 <= k <= ins.len(),
        release_all(st, ins.subrange(0, k), keys, caps, result) is Err,
    ensures
        release_all(st, ins, keys, caps, result) == release_all(
            st,
            ins.subrange(0, k),
            keys,
            caps,
            result,
        ),
    decreases ins.len() - k,
{
    if k < ins.len() {
        assert(ins.subrange(0, k + 1).drop_last() =~= ins.subrange(0, k));
        lemma_release_error(st, ins, k + 1, keys, caps, result);
    } else {
        assert(ins.subrange(0, k) =~= ins);
    }
}

impl StepRun {
    /// The run belongs to this step.
    pub open spec fn runs(&self, graph: &StepGraph) -> bool {
        &&& graph.wf()
        &&& graph.countable()
        &&& self.values@.len() == graph.keys().len()
        &&& self.remaining@.len() == graph.keys().len()
        &&& self.pool.wf()
    }

    /// A run of `graph` on the buffers of a pool. New buffers are numbered from `next` on.
    pub fn start(
        graph: &StepGraph,
        pool: TensorPool,
        next: usize,
        policy: FinalLogitsPolicy,
    ) -> (r: Self)
        requires
            graph.wf(),
            graph.countable(),
            pool.wf(),
        ensures
            r.runs(graph),
            r@ == run_start(
                graph.use_counts@,
                graph.keys().len(),
                pool.buffers(),
                next as int,
                policy,
            ),
            r.pool == pool,
    {
        let mut values: Vec<Option<Held>> = Vec::new();
        let mut remaining: Vec<usize> = Vec::new();
        let mut i: usize = 0;
        while i < graph.specs.len()
            invariant
                i <= graph.specs@.len(),
                graph.use_counts@.len() == graph.specs@.len(),
                values@ == Seq::new(i as nat, |k: int| None::<Held>),
                remaining@ == graph.use_counts@.subrange(0, i as int),
            decreases graph.specs@.len() - i,
        {
            values.push(None);
            remaining.push(graph.use_counts[i]);
            i = i + 1;
            assert(values@ =~= Seq::new(i as nat, |k: int| None::<Held>));
            assert(remaining@ =~= graph.use_counts@.subrange(0, i as int));
        }
        assert(remaining@ =~= graph.use_counts@);
        let run = StepRun { values, remaining, pool, dropped: Vec::new(), next, policy };
        assert(run@ =~= run_start(
            graph.use_counts@,
            graph.keys().len(),
            pool.buffers(),
            next as int,
            policy,
        ));
        run
    }

    /// What stands behind a reference.
    fn resolve_ref(&self, a: (bool, TensorRef)) -> (r: Result<Arg, RunError>)
        requires
            a.1 matches TensorRef::Value(v) ==> v.0 < self.values@.len(),
        ensures
            r == resolve(self.values@, a),
    {
        match a.1 {
            TensorRef::Value(v) => match self.values[v.0] {
                Some(h) => Ok(Arg::Buffer(h)),
                None => Err(RunError::MissingValue { value: v.0 }),
            },
            TensorRef::Weight(w) => if a.0 == weight_is_matrix(w) {
                Ok(Arg::Weight(w))
            } else if a.0 {
                Err(RunError::NotAMatrix)
            } else {
                Err(RunError::NotATensor)
            },
        }
    }

    /// What stands behind the references of an operation.
    fn resolve_refs(&self, op: &GraphOp) -> (r: Result<Vec<Arg>, RunError>)
        requires
            op_in_range(op@, self.values@.len()),
        ensures
            match r {
                Ok(v) => resolve_all(self.values@, args_of(op@)) == Ok::<Seq<Arg>, RunError>(v@),
                Err(e) => resolve_all(self.values@, args_of(op@)) == Err::<Seq<Arg>, RunError>(e),
            },
    {
        let args: Vec<(bool, TensorRef)> = arguments(op);
        let ghost all = args@;
        let mut out: Vec<Arg> = Vec::new();
        let mut i: usize = 0;
        proof {
            lemma_args_in_range(op@, self.values@.len());
            assert(all.subrange(0, 0) =~= Seq::empty());
        }
        while i < args.len()
            invariant
                i <= args@.len(),
                args@ == all,
                all == args_of(op@),
                args_in_range(all, self.values@.len()),
                resolve_all(self.values@, all.subrange(0, i as int)) == Ok::<
                    Seq<Arg>,
                    RunError,
                >(out@),
            decreases args@.len() - i,
        {
            proof {
                assert(all.subrange(0, i + 1).drop_last() =~= all.subrange(0, i as int));
                assert(match all[i as int].1 {
                    TensorRef::Value(v) => v.0 < self.values@.len(),
                    TensorRef::Weight(_) => true,
                });
            }
            match self.resolve_ref(args[i]) {
                Ok(a) => {
                    out.push(a);
                },
                Err(e) => {
                    proof {
                        lemma_resolve_error(self.values@, all, i + 1);
                    }
                    return Err(e);
                },
            }
            i = i + 1;
        }
        assert(all.subrange(0, i as int) =~= all);
        Ok(out)
    }

    /// A new buffer.
    fn fresh_buffer(&mut self, numel: usize) -> (r: Grant)
        requires
            old(self).next < usize::MAX,
        ensures
            (final(self)@, r) == fresh(old(self)@, numel as int),
            final(self).pool == old(self).pool,
    {
        let id: usize = self.next;
        self.next = self.next + 1;
        Grant { held: Held { id, numel }, fresh: true }
    }

    /// A buffer for the value `v`.
    fn checkout_graph_output(&mut self, graph: &StepGraph, v: ValueId) -> (r: Result<
        Grant,
        RunError,
    >)
        requires
            old(self).runs(graph),
            v.0 < graph.keys().len(),
            old(self).next < usize::MAX,
        ensures
            match r {
                Ok(g) => grant(old(self)@, v, graph.keys(), graph.final_value) == Ok::<
                    (RunState, Grant),
                    RunError,
                >((final(self)@, g)) && final(self).runs(graph) && final(self).next <= old(self).next
                    + 1 && final(self).pool.cache_caps == old(self).pool.cache_caps,
                Err(e) => grant(old(self)@, v, graph.keys(), graph.final_value) == Err::<
                    (RunState, Grant),
                    RunError,
                >(e),
            },
    {
        let spec: &TensorSpec = graph.spec(v);
        assert(graph.keys()[v.0 as int].countable());
        let numel: usize = spec.numel();
        if v == graph.final_value {
            match self.policy {
                FinalLogitsPolicy::Allocate => Ok(self.fresh_buffer(numel)),
                FinalLogitsPolicy::Preallocated(held) => {
                    self.policy = FinalLogitsPolicy::Taken;
                    Ok(Grant { held, fresh: false })
                },
                FinalLogitsPolicy::Taken => Err(RunError::MissingResultBuffer),
            }
        } else {
            match self.pool.checkout(spec) {
                Some(id) => Ok(Grant { held: Held { id, numel }, fresh: false }),
                None => Ok(self.fresh_buffer(numel)),
            }
        }
    }

    /// One value was read.
    fn consume_input(&mut self, graph: &StepGraph, v: ValueId) -> (r: Result<(), RunError>)
        requires
            old(self).runs(graph),
            v.0 < graph.keys().len(),
        ensures
            match r {
                Ok(_) => release(
                    old(self)@,
                    v,
                    graph.keys(),
                    old(self).pool.cache_caps@,
                    graph.final_value,
                ) == Ok::<RunState, RunError>(final(self)@) && final(self).runs(graph)
                    && final(self).pool.cache_caps == old(self).pool.cache_caps,
                Err(e) => release(
                    old(self)@,
                    v,
                    graph.keys(),
                    old(self).pool.cache_caps@,
                    graph.final_value,
                ) == Err::<RunState, RunError>(e),
            },
    {
        let left: usize = self.remaining[v.0];
        if left == 0 {
            return Err(RunError::UseCount { value: v.0 });
        }
        self.remaining.set(v.0, left - 1);
        if left == 1 && v != graph.final_value {
            match self.values[v.0] {
                Some(h) => {
                    self.values.set(v.0, None);
                    let spec: &TensorSpec = graph.spec(v);
                    assert(graph.keys()[v.0 as int].countable());
                    let kept: bool = self.pool.checkin(h.id, h.numel, spec)?;
                    if !kept {
                        self.dropped.push(h.id);
                    }
                },
                None => {},
            }
        }
        Ok(())
    }

    /// What the operation read may be free.
    fn consume_graph_inputs(&mut self, graph: &StepGraph, op: &GraphOp) -> (r: Result<
        (),
        RunError,
    >)
        requires
            old(self).runs(graph),
            op_in_range(op@, graph.keys().len()),
        ensures
            match r {
                Ok(_) => release_all(
                    old(self)@,
                    inputs_of(op@),
                    graph.keys(),
                    old(self).pool.cache_caps@,
                    graph.final_value,
                ) == Ok::<RunState, RunError>(final(self)@) && final(self).runs(graph)
                    && final(self).pool.cache_caps == old(self).pool.cache_caps,
                Err(e) => release_all(
                    old(self)@,
                    inputs_of(op@),
                    graph.keys(),
                    old(self).pool.cache_caps@,
                    graph.final_value,
                ) == Err::<RunState, RunError>(e),
            },
    {
        let ins: Vec<ValueId> = op.value_inputs();
        let ghost all = ins@;
        let ghost start = self@;
        let ghost caps = self.pool.cache_caps;
        let mut i: usize = 0;
        assert(all.subrange(0, 0) =~= Seq::empty());
        while i < ins.len()
            invariant
                i <= ins@.len(),
                ins@ == all,
                all == inputs_of(op@),
                start == old(self)@,
                caps == old(self).pool.cache_caps,
                op_in_range(op@, graph.keys().len()),
                self.runs(graph),
                self.pool.cache_caps == caps,
                release_all(
                    start,
                    all.subrange(0, i as int),
                    graph.keys(),
                    caps@,
                    graph.final_value,
                ) == Ok::<RunState, RunError>(self@),
            decreases ins@.len() - i,
        {
            proof {
                assert(all.subrange(0, i + 1).drop_last() =~= all.subrange(0, i as int));
                assert(inputs_of(op@)[i as int].0 < graph.keys().len());
            }
            match self.consume_input(graph, ins[i]) {
                Ok(_) => {},
                Err(e) => {
                    proof {
                        lemma_release_error(
                            start,
                            all,
                            i + 1,
                            graph.keys(),
                            caps@,
                            graph.final_value,
                        );
                    }
                    return Err(e);
                },
            }
            i = i + 1;
        }
        assert(all.subrange(0, i as int) =~= all);
        Ok(())
    }

    /// Buffers for the values that an operation writes.
    fn checkout_graph_outputs(&mut self, graph: &StepGraph, op: &GraphOp) -> (r: Result<
        (Vec<ValueId>, Vec<Grant>),
        RunError,
    >)
        requires
            old(self).runs(graph),
            op_in_range(op@, graph.keys().len()),
            old(self).next + 2 <= usize::MAX,
        ensures
            match r {
                Ok((outs, grants)) => outs@ == outs_of(op@) && grants@.len() == outs@.len()
                    && grant_all(old(self)@, outs_of(op@), graph.keys(), graph.final_value) == Ok::<
                    (RunState, Seq<Grant>),
                    RunError,
                >((final(self)@, grants@)) && final(self).runs(graph)
                    && final(self).pool.cache_caps == old(self).pool.cache_caps,
                Err(e) => grant_all(old(self)@, outs_of(op@), graph.keys(), graph.final_value)
                    == Err::<(RunState, Seq<Grant>), RunError>(e),
            },
    {
        let ghost start = self@;
        let ghost caps = self.pool.cache_caps;
        let first: usize = self.next;
        let mut outs: Vec<ValueId> = Vec::new();
        match op.output() {
            Some(v) => {
                outs.push(v);
            },
            None => {},
        }
        let mut more: Vec<ValueId> = op.extra_outputs();
        outs.append(&mut more);
        assert(outs@ =~= outs_of(op@));
        let ghost all = outs@;
        let mut grants: Vec<Grant> = Vec::new();
        let mut i: usize = 0;
        assert(all.subrange(0, 0) =~= Seq::empty());
        while i < outs.len()
            invariant
                i <= outs@.len(),
                outs@ == all,
                all == outs_of(op@),
                start == old(self)@,
                caps == old(self).pool.cache_caps,
                outs@.len() <= 2,
                op_in_range(op@, graph.keys().len()),
                self.runs(graph),
                self.pool.cache_caps == caps,
                self.next <= first + i,
                first + 2 <= usize::MAX,
                grants@.len() == i,
                grant_all(start, all.subrange(0, i as int), graph.keys(), graph.final_value)
                    == Ok::<(RunState, Seq<Grant>), RunError>((self@, grants@)),
            decreases outs@.len() - i,
        {
            proof {
                assert(all.subrange(0, i + 1).drop_last() =~= all.subrange(0, i as int));
                assert(outs_of(op@)[i as int].0 < graph.keys().len());
            }
            match self.checkout_graph_output(graph, outs[i]) {
                Ok(g) => {
                    grants.push(g);
                },
                Err(e) => {
                    proof {
                        lemma_grant_error(start, all, i + 1, graph.keys(), graph.final_value);
                    }
                    return Err(e);
                },
            }
            i = i + 1;
        }
        assert(all.subrange(0, i as int) =~= all);
        Ok((outs, grants))
    }

    /// A reshape.
    fn execute_reshape(
        &mut self,
        graph: &StepGraph,
        input: TensorRef,
        shape: &Vec<usize>,
        out: ValueId,
    ) -> (r: Result<Launch, RunError>)
        requires
            old(self).runs(graph),
            input matches TensorRef::Value(v) ==> v.0 < graph.keys().len(),
            out.0 < graph.keys().len(),
            old(self).next < usize::MAX,
        ensures
            match r {
                Ok(l) => reshape(old(self)@, input, shape@, out) == Ok::<
                    (RunState, LaunchModel),
                    RunError,
                >((final(self)@, l@)) && final(self).runs(graph) && final(self).pool == old(self).pool,
                Err(e) => reshape(old(self)@, input, shape@, out) == Err::<
                    (RunState, LaunchModel),
                    RunError,
                >(e),
            },
    {
        let v: ValueId = match input {
            TensorRef::Weight(_) => {
                return Err(RunError::ReshapeWeight);
            },
            TensorRef::Value(v) => v,
        };
        let h: Held = match self.values[v.0] {
            None => {
                return Err(RunError::MissingReshapeInput { value: v.0 });
            },
            Some(h) => h,
        };
        let g: Grant = if self.remaining[v.0] == 1 {
            self.values.set(v.0, None);
            Grant { held: h, fresh: false }
        } else {
            self.fresh_buffer(h.numel)
        };
        match product_of_dims(shape.as_slice()) {
            Some(n) => {
                if n != h.numel {
                    return Err(RunError::ReshapeNumel);
                }
            },
            None => {
                return Err(RunError::ReshapeNumel);
            },
        }
        self.values.set(out.0, Some(g.held));
        let l = Launch { args: vec![Arg::Buffer(h)], outs: vec![g] };
        assert(l@ =~= (LaunchModel { args: seq![Arg::Buffer(h)], outs: seq![g] }));
        Ok(l)
    }

    /// An operation gets the buffers that it reads and writes.
    fn launch(&mut self, graph: &StepGraph, op: &GraphOp) -> (r: Result<Launch, RunError>)
        requires
            old(self).runs(graph),
            op_in_range(op@, graph.keys().len()),
            old(self).next + 2 <= usize::MAX,
        ensures
            match r {
                Ok(l) => launch_op(old(self)@, op@, graph.keys(), graph.final_value) == Ok::<
                    (RunState, LaunchModel),
                    RunError,
                >((final(self)@, l@)) && final(self).runs(graph) && final(self).pool.cache_caps
                    == old(self).pool.cache_caps,
                Err(e) => launch_op(old(self)@, op@, graph.keys(), graph.final_value) == Err::<
                    (RunState, LaunchModel),
                    RunError,
                >(e),
            },
    {
        match op {
            Op::Reshape { input, shape, out } => {
                proof {
                    assert(outs_of(op@)[0] == *out);
                    if input is Value {
                        assert(inputs_of(op@)[0] == input->Value_0);
                    }
                }
                return self.execute_reshape(graph, *input, shape, *out);
            },
            _ => {},
        }
        let args: Vec<Arg> = self.resolve_refs(op)?;
        let (outs, grants) = self.checkout_graph_outputs(graph, op)?;
        let ghost mid = self@;
        let ghost all = outs@;
        let mut i: usize = 0;
        assert(all.subrange(0, 0) =~= Seq::empty());
        while i < outs.len()
            invariant
                i <= outs@.len(),
                outs@ == all,
                all == outs_of(op@),
                grants@.len() == all.len(),
                op_in_range(op@, graph.keys().len()),
                self.runs(graph),
                self@ == (RunState {
                    slots: fill(mid.slots, all.subrange(0, i as int), grants@),
                    ..mid
                }),
                self.pool.cache_caps == old(self).pool.cache_caps,
            decreases outs@.len() - i,
        {
            proof {
                assert(all.subrange(0, i + 1).drop_last() =~= all.subrange(0, i as int));
                assert(outs_of(op@)[i as int].0 < graph.keys().len());
            }
            self.values.set(outs[i].0, Some(grants[i].held));
            i = i + 1;
        }
        assert(all.subrange(0, i as int) =~= all);
        Ok(Launch { args, outs: grants })
    }

    /// The buffers that operation `k` of the step reads and writes. What it read for the
    /// last time is free for the operations after it, or dropped where the pool is full.
    pub fn advance(&mut self, graph: &StepGraph, k: usize) -> (r: Result<Launch, RunError>)
        requires
            old(self).runs(graph),
            k < graph.ops@.len(),
            old(self).next + 2 <= usize::MAX,
        ensures
            match r {
                Ok(l) => run_op(
                    old(self)@,
                    graph.models()[k as int],
                    graph.keys(),
                    old(self).pool.cache_caps@,
                    graph.final_value,
                ) == Ok::<(RunState, LaunchModel), RunError>((final(self)@, l@)) && final(self).runs(
                    graph,
                ) && final(self).pool.cache_caps == old(self).pool.cache_caps,
                Err(e) => run_op(
                    old(self)@,
                    graph.models()[k as int],
                    graph.keys(),
                    old(self).pool.cache_caps@,
                    graph.final_value,
                ) == Err::<(RunState, LaunchModel), RunError>(e),
            },
    {
        let op: &GraphOp = &graph.ops[k];
        assert(graph.models()[k as int] == op@);
        assert(op_in_range(graph.models()[k as int], graph.keys().len()));
        let l: Launch = self.launch(graph, op)?;
        self.consume_graph_inputs(graph, op)?;
        Ok(l)
    }

    /// The buffer of the result, once every operation has run.
    pub fn result(&self, graph: &StepGraph) -> (r: Result<Held, RunError>)
        requires
            self.runs(graph),
        ensures
            r == match self@.slots[graph.final_value.0 as int] {
                Some(h) => Ok::<Held, RunError>(h),
                None => Err(RunError::MissingResult),
            },
    {
        assert(graph.final_value.0 < graph.keys().len());
        match self.values[graph.final_value.0] {
            Some(h) => Ok(h),
            None => Err(RunError::MissingResult),
        }
    }
}

} // verus!
