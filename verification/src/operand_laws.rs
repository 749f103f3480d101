//! What an operation reads and writes, from its operands to the buffers of its launch.
use crate::forward::LayerWeights;
use crate::graph::{
    inputs_of, outs_of, GraphOp, LayerWeightSlot, Op, OpModel, SpecKey, TensorRef, ValueId,
    WeightRef,
};
use crate::kernel::KernelCall;
use crate::run::{
    args_of, fill, grant_all, is_matrix, launch_op, resolve_all, Arg, Grant, LaunchModel, RunState,
};
use vstd::prelude::*;

verus! {

/// What a launch reads for an operand: the buffer of a value, or the weight itself.
pub open spec fn operand(st: RunState, r: TensorRef) -> Option<Arg> {
    match r {
        TensorRef::Value(v) => match st.slots[v.0 as int] {
            Some(h) => Some(Arg::Buffer(h)),
            None => None,
        },
        TensorRef::Weight(w) => Some(Arg::Weight(w)),
    }
}

/// A launch reads exactly these operands, in this order.
pub open spec fn reads_operands(st: RunState, l: LaunchModel, rs: Seq<TensorRef>) -> bool {
    &&& l.args.len() == rs.len()
    &&& forall|i: int| 0 <= i < rs.len() ==> operand(st, #[trigger] rs[i]) == Some(l.args[i])
}

/// The operands of an operation in the order in which its kernel takes them: a matrix before
/// what it multiplies, a gate before what it gates, what is normed before the weight of the
/// norm, a residual before what is added to it, and queries, keys, values.
pub open spec fn operands(op: OpModel) -> Seq<TensorRef> {
    match op {
        Op::EmbeddingBatch { .. } => Seq::empty(),
        Op::MatMul { matrix, rhs, .. } => seq![matrix, rhs],
        Op::MatVec { matrix, vector, .. } => seq![matrix, vector],
        Op::MatMulSlice { matrix, rhs, .. } => seq![matrix, rhs],
        Op::Add { lhs, rhs, .. } => seq![lhs, rhs],
        Op::SiluMul { gate, up, .. } => seq![gate, up],
        Op::RmsNorm { x, weight, .. } => seq![x, weight],
        Op::AddRmsNorm { residual, x, weight, .. } => seq![residual, x, weight],
        Op::Reshape { input, .. } => seq![input],
        Op::SliceCols { input, .. } => seq![input],
        Op::GatherRow { src, .. } => seq![src],
        Op::Rope { x, .. } => seq![x],
        Op::Attention { q, .. } => seq![q],
        Op::KvCacheUpdate { new_k, new_v, .. } => seq![new_k, new_v],
        Op::QkNormRopeKvPrefill { q, k, v, .. } => seq![q, k, v],
    }
}

/// The values that an operation writes, in the order in which its kernel does: the norm of a
/// sum before the sum.
pub open spec fn written(op: OpModel) -> Seq<ValueId> {
    match op {
        Op::KvCacheUpdate { .. } => Seq::empty(),
        Op::AddRmsNorm { out, residual_out, .. } => seq![out, residual_out],
        Op::EmbeddingBatch { out } => seq![out],
        Op::MatMul { out, .. } => seq![out],
        Op::MatVec { out, .. } => seq![out],
        Op::MatMulSlice { out, .. } => seq![out],
        Op::Add { out, .. } => seq![out],
        Op::SiluMul { out, .. } => seq![out],
        Op::RmsNorm { out, .. } => seq![out],
        Op::Reshape { out, .. } => seq![out],
        Op::SliceCols { out, .. } => seq![out],
        Op::GatherRow { out, .. } => seq![out],
        Op::Rope { out, .. } => seq![out],
        Op::Attention { out, .. } => seq![out],
        Op::QkNormRopeKvPrefill { out, .. } => seq![out],
    }
}

proof fn lemma_resolved(st: RunState, args: Seq<(bool, TensorRef)>)
    ensures
        resolve_all(st.slots, args) matches Ok(a) ==> a.len() == args.len() && forall|i: int|
            0 <= i < args.len() ==> operand(st, (#[trigger] args[i]).1) == Some(a[i]),
    decreases args.len(),
{
    if args.len() > 0 {
        lemma_resolved(st, args.drop_last());
        if let Ok(a) = resolve_all(st.slots, args) {
            assert forall|i: int| 0 <= i < args.len() implies operand(st, (#[trigger] args[i]).1)
                == Some(a[i]) by {
                if i < args.len() - 1 {
                    assert(args.drop_last()[i] == args[i]);
                } else {
                    assert(args[i] == args.last());
                }
            }
        }
    }
}

/// A launch reads the operands of its operation, each from the buffer of its value or as the
/// weight that it is, in the order of the kernel.
pub proof fn law_launches_read_their_operands(
    st: RunState,
    op: OpModel,
    keys: Seq<SpecKey>,
    result: ValueId,
)
    ensures
        launch_op(st, op, keys, result) matches Ok((_, l)) ==> reads_operands(st, l, operands(op)),
{
    lemma_resolved(st, args_of(op));
    let (args, rs) = (args_of(op), operands(op));
    if let Ok((_, l)) = launch_op(st, op, keys, result) {
        if !(op is Reshape) {
            assert(args.len() == rs.len());
            assert forall|i: int| 0 <= i < rs.len() implies operand(st, #[trigger] rs[i]) == Some(
                l.args[i],
            ) by {
                assert(args[i].1 == rs[i]);
            }
        }
    }
}

/// What an operation reads and writes is what is counted of it: the values among its operands,
/// and the values that it gives.
pub proof fn law_values_are_counted(op: OpModel)
    ensures
        outs_of(op) == written(op),
        inputs_of(op) == values_of(operands(op)),
{
    reveal_with_fuel(values_of, 4);
    let rs = operands(op);
    if rs.len() > 0 {
        let one = rs.drop_last();
        if one.len() > 0 {
            let two = one.drop_last();
            if two.len() > 0 {
                assert(two.drop_last().len() == 0);
            }
        }
    }
    assert(inputs_of(op) =~= values_of(rs));
}

/// The values among operands.
pub open spec fn values_of(rs: Seq<TensorRef>) -> Seq<ValueId>
    decreases rs.len(),
{
    if rs.len() == 0 {
        Seq::empty()
    } else {
        let before = values_of(rs.drop_last());
        match rs.last() {
            TensorRef::Value(v) => before.push(v),
            TensorRef::Weight(_) => before,
        }
    }
}

/// A projection is read as a matrix and a norm as a tensor: each place of a layer holds one of
/// the two.
pub proof fn law_places_hold_a_matrix_or_a_norm(
    w: LayerWeights,
    layer_idx: usize,
    slot: LayerWeightSlot,
)
    ensures
        is_matrix(WeightRef::Layer { layer_idx, slot }) <==> w.matrix_at(slot) is Some,
        is_matrix(WeightRef::Layer { layer_idx, slot }) <==> w.norm_at(slot) is None,
        is_matrix(WeightRef::LmHead),
        !is_matrix(WeightRef::Norm),
        w.norm_at(LayerWeightSlot::InputLayerNorm) == Some(w.input_layernorm),
        w.norm_at(LayerWeightSlot::PostAttentionLayerNorm) == Some(w.post_attention_layernorm),
        w.norm_at(LayerWeightSlot::QNorm) == Some(w.q_norm),
        w.norm_at(LayerWeightSlot::KNorm) == Some(w.k_norm),
        w.matrix_at(LayerWeightSlot::QkvProj) == Some(w.qkv_proj),
        w.matrix_at(LayerWeightSlot::OProj) == Some(w.o_proj),
        w.matrix_at(LayerWeightSlot::GateUpProj) == Some(w.gate_up_proj),
        w.matrix_at(LayerWeightSlot::DownProj) == Some(w.down_proj),
{
}

/// A value is read from the buffer that it was written to: what one launch writes for a value
/// is what a later one reads for it, as long as it is kept.
pub proof fn law_values_are_read_where_they_were_written(
    st: RunState,
    op: OpModel,
    keys: Seq<SpecKey>,
    result: ValueId,
    i: int,
)
    requires
        !(op is Reshape),
        0 <= i < written(op).len(),
        forall|k: int| 0 <= k < written(op).len() ==> (#[trigger] written(op)[k]).0 < st.slots.len(),
        written(op).len() == 2 ==> written(op)[0] != written(op)[1],
    ensures
        launch_op(st, op, keys, result) matches Ok((end, l)) ==> l.outs.len() == written(op).len()
            && end.slots.len() == st.slots.len() && operand(end, TensorRef::Value(written(op)[i]))
            == Some(Arg::Buffer(l.outs[i].held)),
{
    if let Ok((end, l)) = launch_op(st, op, keys, result) {
        lemma_granted(st, outs_of(op), keys, result);
        let (mid, outs) = grant_all(st, outs_of(op), keys, result)->Ok_0;
        assert(outs_of(op) =~= written(op));
        lemma_filled(mid.slots, outs_of(op), outs);
    }
}

proof fn lemma_granted(st: RunState, outs: Seq<ValueId>, keys: Seq<SpecKey>, result: ValueId)
    ensures
        grant_all(st, outs, keys, result) matches Ok((mid, g)) ==> g.len() == outs.len()
            && mid.slots == st.slots,
    decreases outs.len(),
{
    if outs.len() > 0 {
        lemma_granted(st, outs.drop_last(), keys, result);
    }
}

proof fn lemma_filled(slots: Seq<Option<crate::run::Held>>, outs: Seq<ValueId>, grants: Seq<Grant>)
    requires
        outs.len() == grants.len(),
        outs.len() <= 2,
        outs.len() == 2 ==> outs[0] != outs[1],
        forall|k: int| 0 <= k < outs.len() ==> (#[trigger] outs[k]).0 < slots.len(),
    ensures
        fill(slots, outs, grants).len() == slots.len(),
        forall|k: int|
            0 <= k < outs.len() ==> fill(slots, outs, grants)[(#[trigger] outs[k]).0 as int] == Some(
                grants[k].held,
            ),
    decreases outs.len(),
{
    reveal_with_fuel(fill, 3);
    if outs.len() > 0 {
        let rest = outs.drop_last();
        assert(rest.len() == outs.len() - 1);
        if rest.len() > 0 {
            assert(rest.drop_last().len() == 0);
            assert(rest.last() == outs[0]);
        }
        assert(outs.last() == outs[outs.len() - 1]);
    }
}

/// An operation and a call stand for what they hold.
pub proof fn law_views_keep_their_fields(op: GraphOp, c: KernelCall)
    ensures
        match op {
            Op::Reshape { input, shape, out } => op@ == (Op::Reshape { input, shape: shape@, out }),
            Op::EmbeddingBatch { out } => op@ == (OpModel::EmbeddingBatch { out }),
            Op::MatMul { matrix, rhs, out } => op@ == (OpModel::MatMul { matrix, rhs, out }),
            Op::MatVec { matrix, vector, out } => op@ == (OpModel::MatVec { matrix, vector, out }),
            Op::Add { lhs, rhs, out } => op@ == (OpModel::Add { lhs, rhs, out }),
            Op::SiluMul { gate, up, out } => op@ == (OpModel::SiluMul { gate, up, out }),
            Op::RmsNorm { x, weight, n, out } => op@ == (OpModel::RmsNorm { x, weight, n, out }),
            Op::Rope { x, out } => op@ == (OpModel::Rope { x, out }),
            Op::KvCacheUpdate { layer_idx, new_k, new_v } => op@ == (OpModel::KvCacheUpdate {
                layer_idx,
                new_k,
                new_v,
            }),
            Op::QkNormRopeKvPrefill { layer_idx, q, k, v, out } => op@
                == (OpModel::QkNormRopeKvPrefill { layer_idx, q, k, v, out }),
            Op::Attention { layer_idx, q, out } => op@ == (OpModel::Attention {
                layer_idx,
                q,
                out,
            }),
            Op::GatherRow { src, row_idx, out } => op@ == (OpModel::GatherRow {
                src,
                row_idx,
                out,
            }),
            Op::SliceCols { input, col_offset, out_cols, out } => op@ == (OpModel::SliceCols {
                input,
                col_offset,
                out_cols,
                out,
            }),
            Op::MatMulSlice { matrix, row_offset, out_features, rhs, out } => op@
                == (OpModel::MatMulSlice { matrix, row_offset, out_features, rhs, out }),
            Op::AddRmsNorm { residual, x, weight, n, out, residual_out } => op@
                == (OpModel::AddRmsNorm { residual, x, weight, n, out, residual_out }),
        },
        c@.kernel == c.kernel,
        c@.tile == c.tile@,
        c@.second_tile == c.second_tile@,
        c@.ints == c.ints@,
        c@.generics == c.generics@,
        c@.grid == c.grid,
        c@.hint == c.hint,
{
}

} // verus!
