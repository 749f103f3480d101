//! The operations of one forward step, how long their values live, and the pool of
//! buffers that they need.
use crate::gguf::{dims_product, product_of_dims};
use crate::quant_scratch::copy_dims;
use vstd::prelude::*;

verus! {

/// The element types of values.
#[derive(Clone, Copy, Debug, PartialEq, Eq, Structural)]
pub enum GraphDType {
    F16,
}

/// What kind of buffer a value needs.
#[derive(Debug)]
pub struct TensorSpec {
    pub dtype: GraphDType,
    pub shape: Vec<usize>,
}

/// What kind of buffer a value needs, as a value.
#[verifier::ext_equal]
pub struct SpecKey {
    pub dtype: GraphDType,
    pub shape: Seq<usize>,
}

impl View for TensorSpec {
    type V = SpecKey;

    open spec fn view(&self) -> SpecKey {
        SpecKey { dtype: self.dtype, shape: self.shape@ }
    }
}

/// A half-precision buffer of this shape.
pub open spec fn half_key(shape: Seq<usize>) -> SpecKey {
    SpecKey { dtype: GraphDType::F16, shape }
}

impl SpecKey {
    /// Elements of the buffer.
    pub open spec fn numel(self) -> int {
        match dims_product(self.shape) {
            Some(n) => n as int,
            None => 0,
        }
    }

    /// Bytes of the buffer.
    pub open spec fn bytes(self) -> int {
        2 * self.numel()
    }

    /// The elements of the buffer can be counted.
    pub open spec fn countable(self) -> bool {
        dims_product(self.shape) is Some
    }

    /// The elements and the bytes of the buffer can be counted.
    pub open spec fn sized(self) -> bool {
        self.countable() && self.bytes() <= usize::MAX
    }
}

impl GraphDType {
    /// Bytes of one element.
    pub fn size_in_bytes(self) -> (r: usize)
        ensures
            r == 2,
    {
        match self {
            GraphDType::F16 => 2,
        }
    }
}

impl TensorSpec {
    /// A half-precision buffer of this shape.
    pub fn half(shape: Vec<usize>) -> (r: Self)
        ensures
            r@ == half_key(shape@),
    {
        TensorSpec { dtype: GraphDType::F16, shape }
    }

    /// Elements of the buffer.
    pub fn numel(&self) -> (r: usize)
        requires
            self@.countable(),
        ensures
            r == self@.numel(),
    {
        match product_of_dims(self.shape.as_slice()) {
            Some(n) => n,
            None => 0,
        }
    }

    /// Bytes of the buffer.
    pub fn bytes(&self) -> (r: usize)
        requires
            self@.sized(),
        ensures
            r == self@.bytes(),
    {
        self.numel() * self.dtype.size_in_bytes()
    }

    /// The same specification once more.
    pub fn copy(&self) -> (r: Self)
        ensures
            r@ == self@,
    {
        TensorSpec { dtype: self.dtype, shape: copy_dims(self.shape.as_slice()) }
    }

    /// Whether two specifications are the same.
    pub fn same(&self, other: &TensorSpec) -> (r: bool)
        ensures
            r == (self@ == other@),
    {
        if self.shape.len() != other.shape.len() {
            return false;
        }
        let mut i: usize = 0;
        while i < self.shape.len()
            invariant
                i <= self.shape@.len(),
                self.shape@.len() == other.shape@.len(),
                forall|k: int| 0 <= k < i ==> self.shape@[k] == other.shape@[k],
            decreases self.shape@.len() - i,
        {
            if self.shape[i] != other.shape[i] {
                return false;
            }
            i = i + 1;
        }
        assert(self.shape@ =~= other.shape@);
        true
    }
}

/// A value of a step, by its place among the specifications.
#[derive(Clone, Copy, Debug, PartialEq, Eq, Structural)]
pub struct ValueId(pub usize);

impl ValueId {
    /// The place of the value.
    pub fn idx(self) -> (r: usize)
        ensures
            r == self.0,
    {
        self.0
    }
}

/// The weights of a layer.
#[derive(Clone, Copy, Debug, PartialEq, Eq, Structural)]
pub enum LayerWeightSlot {
    InputLayerNorm,
    PostAttentionLayerNorm,
    QNorm,
    KNorm,
    QkvProj,
    OProj,
    GateUpProj,
    DownProj,
}

/// A weight of the model.
#[derive(Clone, Copy, Debug, PartialEq, Eq, Structural)]
pub enum WeightRef {
    LmHead,
    Norm,
    Layer { layer_idx: usize, slot: LayerWeightSlot },
}

/// What an operation reads: a value of the step or a weight.
#[derive(Clone, Copy, Debug, PartialEq, Eq, Structural)]
pub enum TensorRef {
    Value(ValueId),
    Weight(WeightRef),
}

impl TensorRef {
    /// The value, where it is one.
    pub open spec fn value(self) -> Option<ValueId> {
        match self {
            TensorRef::Value(v) => Some(v),
            TensorRef::Weight(_) => None,
        }
    }

    /// The value, where it is one, as a sequence.
    pub open spec fn values(self) -> Seq<ValueId> {
        match self {
            TensorRef::Value(v) => seq![v],
            TensorRef::Weight(_) => Seq::empty(),
        }
    }

    /// The value, where it is one.
    pub fn as_value(self) -> (r: Option<ValueId>)
        ensures
            r == self.value(),
    {
        match self {
            TensorRef::Value(v) => Some(v),
            TensorRef::Weight(_) => None,
        }
    }
}

/// One operation of a step. `S` is how a shape is written down.
#[derive(Debug)]
#[allow(inconsistent_fields)]
pub enum Op<S> {
    /// Embeds the tokens of the step.
    EmbeddingBatch { out: ValueId },
    /// Multiplies every row of `rhs` by a weight matrix.
    MatMul { matrix: TensorRef, rhs: TensorRef, out: ValueId },
    /// Multiplies a vector by a weight matrix.
    MatVec { matrix: TensorRef, vector: TensorRef, out: ValueId },
    /// Adds two tensors.
    Add { lhs: TensorRef, rhs: TensorRef, out: ValueId },
    /// `silu(gate) * up`.
    SiluMul { gate: TensorRef, up: TensorRef, out: ValueId },
    /// Root-mean-square norm over the last `n` elements.
    RmsNorm { x: TensorRef, weight: TensorRef, n: usize, out: ValueId },
    /// The same elements in another shape; takes its input over.
    Reshape { input: TensorRef, shape: S, out: ValueId },
    /// Rotary position embedding.
    Rope { x: TensorRef, out: ValueId },
    /// Writes keys and values of a layer into its cache.
    KvCacheUpdate { layer_idx: usize, new_k: TensorRef, new_v: TensorRef },
    /// Norm and rotary embedding of queries and keys, and the cache update, in one.
    QkNormRopeKvPrefill {
        layer_idx: usize,
        q: TensorRef,
        k: TensorRef,
        v: TensorRef,
        out: ValueId,
    },
    /// Attention of the queries over the layer's cache.
    Attention { layer_idx: usize, q: TensorRef, out: ValueId },
    /// One row of a tensor.
    GatherRow { src: TensorRef, row_idx: usize, out: ValueId },
    /// Columns `col_offset .. col_offset + out_cols` of every row.
    SliceCols { input: TensorRef, col_offset: usize, out_cols: usize, out: ValueId },
    /// As `MatMul`, with rows `row_offset .. row_offset + out_features` of the matrix.
    MatMulSlice {
        matrix: TensorRef,
        row_offset: usize,
        out_features: usize,
        rhs: TensorRef,
        out: ValueId,
    },
    /// Adds `x` to the residual and norms the sum; `residual_out` is the sum.
    AddRmsNorm {
        residual: TensorRef,
        x: TensorRef,
        weight: TensorRef,
        n: usize,
        out: ValueId,
        residual_out: ValueId,
    },
}

/// One operation of a step.
pub type GraphOp = Op<Vec<usize>>;

/// What an operation is.
pub type OpModel = Op<Seq<usize>>;

impl View for Op<Vec<usize>> {
    type V = Op<Seq<usize>>;

    open spec fn view(&self) -> Op<Seq<usize>> {
        match *self {
            Op::EmbeddingBatch { out } => Op::EmbeddingBatch { out },
            Op::MatMul { matrix, rhs, out } => Op::MatMul { matrix, rhs, out },
            Op::MatVec { matrix, vector, out } => Op::MatVec { matrix, vector, out },
            Op::Add { lhs, rhs, out } => Op::Add { lhs, rhs, out },
            Op::SiluMul { gate, up, out } => Op::SiluMul { gate, up, out },
            Op::RmsNorm { x, weight, n, out } => Op::RmsNorm { x, weight, n, out },
            Op::Reshape { input, shape, out } => Op::Reshape { input, shape: shape@, out },
            Op::Rope { x, out } => Op::Rope { x, out },
            Op::KvCacheUpdate { layer_idx, new_k, new_v } => Op::KvCacheUpdate {
                layer_idx,
                new_k,
                new_v,
            },
            Op::QkNormRopeKvPrefill { layer_idx, q, k, v, out } => Op::QkNormRopeKvPrefill {
                layer_idx,
                q,
                k,
                v,
                out,
            },
            Op::Attention { layer_idx, q, out } => Op::Attention { layer_idx, q, out },
            Op::GatherRow { src, row_idx, out } => Op::GatherRow { src, row_idx, out },
            Op::SliceCols { input, col_offset, out_cols, out } => Op::SliceCols {
                input,
                col_offset,
                out_cols,
                out,
            },
            Op::MatMulSlice { matrix, row_offset, out_features, rhs, out } => Op::MatMulSlice {
                matrix,
                row_offset,
                out_features,
                rhs,
                out,
            },
            Op::AddRmsNorm { residual, x, weight, n, out, residual_out } => Op::AddRmsNorm {
                residual,
                x,
                weight,
                n,
                out,
                residual_out,
            },
        }
    }
}

/// What each of the operations is.
pub open spec fn op_models(s: Seq<GraphOp>) -> Seq<OpModel> {
    s.map_values(|o: GraphOp| o@)
}

/// What each of the specifications is.
pub open spec fn spec_keys(s: Seq<TensorSpec>) -> Seq<SpecKey> {
    s.map_values(|t: TensorSpec| t@)
}

/// The value that an operation writes first, if any.
pub open spec fn out_of<S>(op: Op<S>) -> Option<ValueId> {
    match op {
        Op::KvCacheUpdate { .. } => None,
        Op::EmbeddingBatch { out, .. } => Some(out),
        Op::MatMul { out, .. } => Some(out),
        Op::MatVec { out, .. } => Some(out),
        Op::Add { out, .. } => Some(out),
        Op::SiluMul { out, .. } => Some(out),
        Op::RmsNorm { out, .. } => Some(out),
        Op::Reshape { out, .. } => Some(out),
        Op::Rope { out, .. } => Some(out),
        Op::QkNormRopeKvPrefill { out, .. } => Some(out),
        Op::Attention { out, .. } => Some(out),
        Op::GatherRow { out, .. } => Some(out),
        Op::SliceCols { out, .. } => Some(out),
        Op::MatMulSlice { out, .. } => Some(out),
        Op::AddRmsNorm { out, .. } => Some(out),
    }
}

/// The values that an operation writes after the first.
pub open spec fn extra_of<S>(op: Op<S>) -> Seq<ValueId> {
    match op {
        Op::AddRmsNorm { residual_out, .. } => seq![residual_out],
        _ => Seq::empty(),
    }
}

/// The values that an operation writes.
pub open spec fn outs_of<S>(op: Op<S>) -> Seq<ValueId> {
    match out_of(op) {
        Some(v) => seq![v] + extra_of(op),
        None => extra_of(op),
    }
}

/// The values that an operation reads, in order.
pub open spec fn inputs_of<S>(op: Op<S>) -> Seq<ValueId> {
    match op {
        Op::EmbeddingBatch { .. } => Seq::empty(),
        Op::MatMul { matrix, rhs, .. } => matrix.values() + rhs.values(),
        Op::MatVec { matrix, vector, .. } => matrix.values() + vector.values(),
        Op::Add { lhs, rhs, .. } => lhs.values() + rhs.values(),
        Op::SiluMul { gate, up, .. } => gate.values() + up.values(),
        Op::RmsNorm { x, weight, .. } => x.values() + weight.values(),
        Op::Reshape { input, .. } => input.values(),
        Op::Rope { x, .. } => x.values(),
        Op::KvCacheUpdate { new_k, new_v, .. } => new_k.values() + new_v.values(),
        Op::QkNormRopeKvPrefill { q, k, v, .. } => q.values() + k.values() + v.values(),
        Op::Attention { q, .. } => q.values(),
        Op::GatherRow { src, .. } => src.values(),
        Op::SliceCols { input, .. } => input.values(),
        Op::MatMulSlice { matrix, rhs, .. } => matrix.values() + rhs.values(),
        Op::AddRmsNorm { residual, x, weight, .. } => residual.values() + x.values() + weight.values(),
    }
}

/// Appends the value of `input`, where it is one.
fn maybe_push(values: &mut Vec<ValueId>, input: TensorRef)
    ensures
        final(values)@ == old(values)@ + input.values(),
{
    match input.as_value() {
        Some(v) => {
            values.push(v);
            assert(values@ =~= old(values)@ + input.values());
        },
        None => {
            assert(values@ =~= old(values)@ + input.values());
        },
    }
}

impl Op<Vec<usize>> {
    /// The value that the operation writes first, if any.
    pub fn output(&self) -> (r: Option<ValueId>)
        ensures
            r == out_of(self@),
    {
        match self {
            Op::KvCacheUpdate { .. } => None,
            Op::EmbeddingBatch { out, .. } => Some(*out),
            Op::MatMul { out, .. } => Some(*out),
            Op::MatVec { out, .. } => Some(*out),
            Op::Add { out, .. } => Some(*out),
            Op::SiluMul { out, .. } => Some(*out),
            Op::RmsNorm { out, .. } => Some(*out),
            Op::Reshape { out, .. } => Some(*out),
            Op::Rope { out, .. } => Some(*out),
            Op::QkNormRopeKvPrefill { out, .. } => Some(*out),
            Op::Attention { out, .. } => Some(*out),
            Op::GatherRow { out, .. } => Some(*out),
            Op::SliceCols { out, .. } => Some(*out),
            Op::MatMulSlice { out, .. } => Some(*out),
            Op::AddRmsNorm { out, .. } => Some(*out),
        }
    }

    /// The values that the operation writes after the first.
    pub fn extra_outputs(&self) -> (r: Vec<ValueId>)
        ensures
            r@ == extra_of(self@),
    {
        let mut r: Vec<ValueId> = Vec::new();
        match self {
            Op::AddRmsNorm { residual_out, .. } => {
                r.push(*residual_out);
                assert(r@ =~= extra_of(self@));
            },
            _ => {},
        }
        r
    }

    /// The values that the operation reads, in order.
    pub fn value_inputs(&self) -> (r: Vec<ValueId>)
        ensures
            r@ == inputs_of(self@),
    {
        let mut values: Vec<ValueId> = Vec::new();
        match self {
            Op::EmbeddingBatch { .. } => {},
            Op::MatMul { matrix, rhs, .. } => {
                maybe_push(&mut values, *matrix);
                maybe_push(&mut values, *rhs);
            },
            Op::MatVec { matrix, vector, .. } => {
                maybe_push(&mut values, *matrix);
                maybe_push(&mut values, *vector);
            },
            Op::Add { lhs, rhs, .. } => {
                maybe_push(&mut values, *lhs);
                maybe_push(&mut values, *rhs);
            },
            Op::SiluMul { gate, up, .. } => {
                maybe_push(&mut values, *gate);
                maybe_push(&mut values, *up);
            },
            Op::RmsNorm { x, weight, .. } => {
                maybe_push(&mut values, *x);
                maybe_push(&mut values, *weight);
            },
            Op::Reshape { input, .. } => {
                maybe_push(&mut values, *input);
            },
            Op::Rope { x, .. } => {
                maybe_push(&mut values, *x);
            },
            Op::KvCacheUpdate { new_k, new_v, .. } => {
                maybe_push(&mut values, *new_k);
                maybe_push(&mut values, *new_v);
            },
            Op::QkNormRopeKvPrefill { q, k, v, .. } => {
                maybe_push(&mut values, *q);
                maybe_push(&mut values, *k);
                maybe_push(&mut values, *v);
            },
            Op::Attention { q, .. } => {
                maybe_push(&mut values, *q);
            },
            Op::GatherRow { src, .. } => {
                maybe_push(&mut values, *src);
            },
            Op::SliceCols { input, .. } => {
                maybe_push(&mut values, *input);
            },
            Op::MatMulSlice { matrix, rhs, .. } => {
                maybe_push(&mut values, *matrix);
                maybe_push(&mut values, *rhs);
            },
            Op::AddRmsNorm { residual, x, weight, .. } => {
                maybe_push(&mut values, *residual);
                maybe_push(&mut values, *x);
                maybe_push(&mut values, *weight);
            },
        }
        assert(values@ =~= inputs_of(self@));
        values
    }
}

} // verus!
