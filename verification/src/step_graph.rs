//! A checked step: its operations, how often each value is read, and its buffers.
use crate::graph::{
    inputs_of, op_models, spec_keys, GraphOp, Op, OpModel, SpecKey, TensorRef, TensorSpec, ValueId,
};
use crate::pool_plan::{
    compute_pool_plan, op_in_range, plan_of, plan_ops, plannable, GraphError, PlanState,
    TensorPoolPlan,
};
use vstd::prelude::*;

verus! {

/// How often `v` occurs in `s`.
pub open spec fn occurrences(s: Seq<ValueId>, v: ValueId) -> nat
    decreases s.len(),
{
    if s.len() == 0 {
        0
    } else {
        occurrences(s.drop_last(), v) + if s.last() == v {
            1nat
        } else {
            0
        }
    }
}

/// How often the first `k` operations read `v`.
pub open spec fn reads(ops: Seq<OpModel>, k: nat, v: ValueId) -> nat
    decreases k,
{
    if k == 0 {
        0
    } else {
        reads(ops, (k - 1) as nat, v) + occurrences(inputs_of(ops[k - 1]), v)
    }
}

/// How often each value is read.
pub open spec fn read_counts(ops: Seq<OpModel>, values: nat) -> Seq<usize> {
    Seq::new(values, |i: int| reads(ops, ops.len(), ValueId(i as usize)) as usize)
}

/// The first of the first `k` operations that reshapes a value which is not read
/// exactly once.
pub open spec fn shared_reshape(ops: Seq<OpModel>, k: nat, counts: Seq<usize>) -> Option<
    GraphError,
>
    decreases k,
{
    if k == 0 {
        None
    } else {
        match shared_reshape(ops, (k - 1) as nat, counts) {
            Some(e) => Some(e),
            None => match ops[k - 1] {
                Op::Reshape { input: TensorRef::Value(v), .. } => if counts[v.0 as int] == 1 {
                    None
                } else {
                    Some(
                        GraphError::ReshapeShared { value: v.0, count: counts[v.0 as int] },
                    )
                },
                _ => None,
            },
        }
    }
}

/// Whether operations and values make a step with the given result, and the state of
/// planning at its end.
pub open spec fn step_check(ops: Seq<OpModel>, keys: Seq<SpecKey>, result: ValueId) -> Result<
    PlanState,
    GraphError,
> {
    let counts = read_counts(ops, keys.len());
    if result.0 >= keys.len() {
        Err(GraphError::FinalRange { value: result.0, values: keys.len() as usize })
    } else if counts[result.0 as int] != 0 {
        Err(GraphError::FinalUsed { count: counts[result.0 as int] })
    } else {
        match shared_reshape(ops, ops.len(), counts) {
            Some(e) => Err(e),
            None => plan_ops(ops, ops.len(), keys, counts, result),
        }
    }
}

/// A checked step.
#[derive(Debug)]
pub struct StepGraph {
    pub ops: Vec<GraphOp>,
    pub specs: Vec<TensorSpec>,
    pub use_counts: Vec<usize>,
    pub final_value: ValueId,
    pub pool_plan: TensorPoolPlan,
}

proof fn lemma_occurrences_bound(s: Seq<ValueId>, v: ValueId)
    ensures
        occurrences(s, v) <= s.len(),
    decreases s.len(),
{
    if s.len() > 0 {
        lemma_occurrences_bound(s.drop_last(), v);
    }
}

pub proof fn lemma_reads_bound(ops: Seq<OpModel>, k: nat, v: ValueId)
    ensures
        reads(ops, k, v) <= 3 * k,
    decreases k,
{
    if k > 0 {
        lemma_reads_bound(ops, (k - 1) as nat, v);
        lemma_occurrences_bound(inputs_of(ops[k - 1]), v);
        assert(inputs_of(ops[k - 1]).len() <= 3);
    }
}

/// Counts the reads of every value.
fn count_reads(ops: &Vec<GraphOp>, values: usize) -> (r: Vec<usize>)
    requires
        forall|i: int|
            0 <= i < ops@.len() ==> op_in_range(#[trigger] op_models(ops@)[i], values as nat),
        3 * ops@.len() <= usize::MAX,
    ensures
        r@ == read_counts(op_models(ops@), values as nat),
{
    let ghost all = op_models(ops@);
    let mut counts: Vec<usize> = Vec::new();
    let mut n: usize = 0;
    while n < values
        invariant
            n <= values,
            counts@.len() == n,
            forall|k: int| 0 <= k < n ==> #[trigger] counts@[k] == 0,
        decreases values - n,
    {
        counts.push(0);
        n = n + 1;
    }
    let mut i: usize = 0;
    while i < ops.len()
        invariant
            i <= ops@.len(),
            all == op_models(ops@),
            counts@.len() == values,
            3 * ops@.len() <= usize::MAX,
            forall|k: int|
                0 <= k < all.len() ==> op_in_range(#[trigger] all[k], values as nat),
            forall|k: int|
                0 <= k < values ==> #[trigger] counts@[k] == reads(
                    all,
                    i as nat,
                    ValueId(k as usize),
                ),
        decreases ops@.len() - i,
    {
        let ins: Vec<ValueId> = ops[i].value_inputs();
        let ghost op = all[i as int];
        assert(op == ops@[i as int]@);
        assert(op_in_range(op, values as nat));
        let mut j: usize = 0;
        assert(ins@.subrange(0, 0) =~= Seq::empty());
        while j < ins.len()
            invariant
                j <= ins@.len(),
                i < ops@.len(),
                all.len() == ops@.len(),
                op == all[i as int],
                ins@ == inputs_of(op),
                op_in_range(op, values as nat),
                counts@.len() == values,
                3 * ops@.len() <= usize::MAX,
                forall|k: int|
                    0 <= k < values ==> #[trigger] counts@[k] == reads(
                        all,
                        i as nat,
                        ValueId(k as usize),
                    ) + occurrences(ins@.subrange(0, j as int), ValueId(k as usize)),
            decreases ins@.len() - j,
        {
            let v: ValueId = ins[j];
            proof {
                assert(inputs_of(op)[j as int] == v);
                let head = ins@.subrange(0, j as int);
                let next = ins@.subrange(0, j + 1);
                assert(next.drop_last() =~= head);
                assert(next.last() == v);
                lemma_reads_bound(all, i as nat, v);
                lemma_occurrences_bound(head, v);
                assert(ins@.len() <= 3);
                assert(v == ValueId(v.0));
            }
            let c: usize = counts[v.0];
            counts.set(v.0, c + 1);
            j = j + 1;
        }
        assert(ins@.subrange(0, ins@.len() as int) =~= ins@);
        i = i + 1;
    }
    assert(counts@ =~= read_counts(all, values as nat)) by {
        assert forall|k: int| 0 <= k < values implies #[trigger] counts@[k] == reads(
            all,
            all.len(),
            ValueId(k as usize),
        ) as usize by {
            lemma_reads_bound(all, all.len(), ValueId(k as usize));
        }
    }
    counts
}

proof fn lemma_shared_error(ops: Seq<OpModel>, a: nat, b: nat, counts: Seq<usize>)
    requires
        a <= b,
        shared_reshape(ops, a, counts) is Some,
    ensures
        shared_reshape(ops, b, counts) == shared_reshape(ops, a, counts),
    decreases b,
{
    if a < b {
        lemma_shared_error(ops, a, (b - 1) as nat, counts);
    }
}

/// Looks for a reshape of a value that is read elsewhere too.
fn find_shared_reshape(ops: &Vec<GraphOp>, counts: &Vec<usize>) -> (r: Option<GraphError>)
    requires
        forall|i: int|
            0 <= i < ops@.len() ==> op_in_range(#[trigger] op_models(ops@)[i], counts@.len()),
    ensures
        r == shared_reshape(op_models(ops@), ops@.len(), counts@),
{
    let ghost all = op_models(ops@);
    let mut i: usize = 0;
    while i < ops.len()
        invariant
            i <= ops@.len(),
            all == op_models(ops@),
            forall|k: int|
                0 <= k < all.len() ==> op_in_range(#[trigger] all[k], counts@.len()),
            shared_reshape(all, i as nat, counts@) is None,
        decreases ops@.len() - i,
    {
        assert(all[i as int] == ops@[i as int]@);
        assert(op_in_range(all[i as int], counts@.len()));
        match &ops[i] {
            Op::Reshape { input: TensorRef::Value(v), .. } => {
                assert(inputs_of(all[i as int])[0] == *v);
                let count: usize = counts[v.0];
                if count != 1 {
                    proof {
                        lemma_shared_error(all, (i + 1) as nat, all.len(), counts@);
                    }
                    return Some(GraphError::ReshapeShared { value: v.0, count });
                }
            },
            _ => {},
        }
        i = i + 1;
    }
    None
}

impl StepGraph {
    /// What the operations of the step are.
    pub open spec fn models(&self) -> Seq<OpModel> {
        op_models(self.ops@)
    }

    /// What kinds of buffer the values need.
    pub open spec fn keys(&self) -> Seq<SpecKey> {
        spec_keys(self.specs@)
    }

    /// The elements of every value can be counted.
    pub open spec fn countable(&self) -> bool {
        forall|i: int| 0 <= i < self.keys().len() ==> (#[trigger] self.keys()[i]).countable()
    }

    /// The step is checked: its reads are counted and its plan is that of its operations.
    pub open spec fn wf(&self) -> bool {
        &&& plannable(
            self.models(),
            self.keys(),
            read_counts(self.models(), self.keys().len()),
            self.final_value,
        )
        &&& self.use_counts@ == read_counts(self.models(), self.keys().len())
        &&& step_check(self.models(), self.keys(), self.final_value) matches Ok(st) && plan_of(
            st,
            self.pool_plan,
        )
    }

    /// Checks that operations and values make a step with this result, and plans its
    /// buffers. Nothing may read the result, and a reshape has to be the only reader of
    /// what it reshapes.
    pub fn new(ops: Vec<GraphOp>, specs: Vec<TensorSpec>, final_value: ValueId) -> (r: Result<
        Self,
        GraphError,
    >)
        requires
            plannable(
                op_models(ops@),
                spec_keys(specs@),
                read_counts(op_models(ops@), specs@.len()),
                final_value,
            ),
        ensures
            match r {
                Ok(g) => g.wf() && g.ops == ops && g.specs == specs && g.final_value
                    == final_value,
                Err(e) => step_check(op_models(ops@), spec_keys(specs@), final_value) == Err::<
                    PlanState,
                    GraphError,
                >(e),
            },
    {
        if final_value.idx() >= specs.len() {
            return Err(GraphError::FinalRange { value: final_value.idx(), values: specs.len() });
        }
        let use_counts: Vec<usize> = count_reads(&ops, specs.len());
        let count: usize = use_counts[final_value.0];
        if count != 0 {
            return Err(GraphError::FinalUsed { count });
        }
        match find_shared_reshape(&ops, &use_counts) {
            Some(e) => {
                return Err(e);
            },
            None => {},
        }
        let pool_plan: TensorPoolPlan = compute_pool_plan(
            ops.as_slice(),
            specs.as_slice(),
            use_counts.as_slice(),
            final_value,
        )?;
        Ok(StepGraph { ops, specs, use_counts, final_value, pool_plan })
    }

    /// The kind of buffer that a value needs.
    pub fn spec(&self, value: ValueId) -> (r: &TensorSpec)
        requires
            value.0 < self.specs@.len(),
        ensures
            r@ == self.keys()[value.0 as int],
    {
        &self.specs[value.0]
    }
}

} // verus!
