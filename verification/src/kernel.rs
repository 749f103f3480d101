//! Kernels of the device, and how one is called.
use crate::weights::WeightError;
use vstd::prelude::*;

verus! {

/// Families of kernels that are compiled before the first request.
#[derive(Clone, Copy, Debug, PartialEq, Eq, Structural)]
pub enum KernelKind {
    /// Embedding of the tokens of a step.
    EmbeddingBatch,
    /// Matrix product.
    Gemm,
    /// Product of a matrix and a vector.
    Gemv,
    /// Root-mean-square norm.
    RmsNorm,
    /// Rotary position embedding.
    RopeSeq,
    /// Cache update.
    KvCacheUpdateSeq,
    /// Attention over the cache.
    FlashAttnCausalSeq,
    /// Elementwise sum.
    AddVec,
    /// Gated product.
    SiluMul,
    /// One row of a tensor.
    GatherRow,
    /// Greatest element of each block.
    ArgmaxBlocks,
    /// Residual sum and norm.
    AddRmsNorm,
    /// Norm of queries and keys.
    QkNorm,
    /// Rotary embedding of queries and keys.
    QkRope,
    /// Norm, rotary embedding and cache update of a prefill.
    QkNormRopeKvPrefill,
    /// Norm, rotary embedding and cache update of one token.
    QkNormRopeKvDecode,
    /// Product of a quantized matrix and a vector.
    QuantGemv,
    /// Greatest of the blocks.
    ArgmaxReduceBlocks,
}

impl KernelKind {
    /// How many families there are.
    pub const COUNT: usize = 18;

    /// The place of the family.
    pub open spec fn place(self) -> int {
        match self {
            KernelKind::EmbeddingBatch => 0,
            KernelKind::Gemm => 1,
            KernelKind::Gemv => 2,
            KernelKind::RmsNorm => 3,
            KernelKind::RopeSeq => 4,
            KernelKind::KvCacheUpdateSeq => 5,
            KernelKind::FlashAttnCausalSeq => 6,
            KernelKind::AddVec => 7,
            KernelKind::SiluMul => 8,
            KernelKind::GatherRow => 9,
            KernelKind::ArgmaxBlocks => 10,
            KernelKind::AddRmsNorm => 11,
            KernelKind::QkNorm => 12,
            KernelKind::QkRope => 13,
            KernelKind::QkNormRopeKvPrefill => 14,
            KernelKind::QkNormRopeKvDecode => 15,
            KernelKind::QuantGemv => 16,
            KernelKind::ArgmaxReduceBlocks => 17,
        }
    }

    /// The place of the family.
    pub fn idx(self) -> (r: usize)
        ensures
            r == self.place(),
            r < KernelKind::COUNT,
    {
        match self {
            KernelKind::EmbeddingBatch => 0,
            KernelKind::Gemm => 1,
            KernelKind::Gemv => 2,
            KernelKind::RmsNorm => 3,
            KernelKind::RopeSeq => 4,
            KernelKind::KvCacheUpdateSeq => 5,
            KernelKind::FlashAttnCausalSeq => 6,
            KernelKind::AddVec => 7,
            KernelKind::SiluMul => 8,
            KernelKind::GatherRow => 9,
            KernelKind::ArgmaxBlocks => 10,
            KernelKind::AddRmsNorm => 11,
            KernelKind::QkNorm => 12,
            KernelKind::QkRope => 13,
            KernelKind::QkNormRopeKvPrefill => 14,
            KernelKind::QkNormRopeKvDecode => 15,
            KernelKind::QuantGemv => 16,
            KernelKind::ArgmaxReduceBlocks => 17,
        }
    }
}

/// All families, each in its place.
pub const TILE_KERNEL_KINDS: [KernelKind; 18] = [
    KernelKind::EmbeddingBatch,
    KernelKind::Gemm,
    KernelKind::Gemv,
    KernelKind::RmsNorm,
    KernelKind::RopeSeq,
    KernelKind::KvCacheUpdateSeq,
    KernelKind::FlashAttnCausalSeq,
    KernelKind::AddVec,
    KernelKind::SiluMul,
    KernelKind::GatherRow,
    KernelKind::ArgmaxBlocks,
    KernelKind::AddRmsNorm,
    KernelKind::QkNorm,
    KernelKind::QkRope,
    KernelKind::QkNormRopeKvPrefill,
    KernelKind::QkNormRopeKvDecode,
    KernelKind::QuantGemv,
    KernelKind::ArgmaxReduceBlocks,
];

/// Every family stands in the list, in its own place.
pub proof fn law_kinds_are_listed(kind: KernelKind)
    ensures
        0 <= kind.place() < TILE_KERNEL_KINDS@.len(),
        TILE_KERNEL_KINDS@.len() == KernelKind::COUNT,
        TILE_KERNEL_KINDS@[kind.place()] == kind,
{
}

/// Which families are compiled.
#[derive(Debug)]
pub struct KernelWarmRegistry {
    pub warmed: Vec<bool>,
}

impl KernelWarmRegistry {
    /// There is a mark for every family.
    pub open spec fn wf(&self) -> bool {
        self.warmed@.len() == KernelKind::COUNT
    }

    /// No family is compiled.
    pub fn new() -> (r: Self)
        ensures
            r.wf(),
            forall|k: KernelKind| !(#[trigger] r.warmed@[k.place()]),
    {
        let mut warmed: Vec<bool> = Vec::new();
        let mut i: usize = 0;
        while i < KernelKind::COUNT
            invariant
                i <= KernelKind::COUNT,
                warmed@.len() == i,
                forall|k: int| 0 <= k < i ==> !(#[trigger] warmed@[k]),
            decreases KernelKind::COUNT - i,
        {
            warmed.push(false);
            i = i + 1;
        }
        KernelWarmRegistry { warmed }
    }

    /// Whether a family is compiled.
    pub fn is_warmed(&self, kind: KernelKind) -> (r: bool)
        requires
            self.wf(),
        ensures
            r == self.warmed@[kind.place()],
    {
        self.warmed[kind.idx()]
    }

    /// Marks a family as compiled.
    pub fn mark_warmed(&mut self, kind: KernelKind)
        requires
            old(self).wf(),
        ensures
            final(self).wf(),
            final(self).warmed@ == old(self).warmed@.update(kind.place(), true),
    {
        self.warmed.set(kind.idx(), true);
    }

    /// Whether every family is compiled.
    pub fn all_warmed(&self) -> (r: bool)
        requires
            self.wf(),
        ensures
            r == forall|i: int| 0 <= i < self.warmed@.len() ==> #[trigger] self.warmed@[i],
    {
        let mut i: usize = 0;
        while i < self.warmed.len()
            invariant
                i <= self.warmed@.len(),
                forall|k: int| 0 <= k < i ==> #[trigger] self.warmed@[k],
            decreases self.warmed@.len() - i,
        {
            if !self.warmed[i] {
                return false;
            }
            i = i + 1;
        }
        true
    }
}

/// Kernels of the device.
#[derive(Clone, Copy, Debug, PartialEq, Eq, Structural)]
pub enum Kernel {
    EmbeddingBatch,
    EmbedGatherQ8_0,
    EmbedGatherQ4K,
    EmbedGatherQ5K,
    EmbedGatherQ6K,
    GemvQ8_0Soa,
    GemvQ4KSoa,
    GemvQ6KSoa,
    GemvQ4K,
    GemvQ5K,
    GemvQ6K,
    GemvQ4KInto,
    GemvQ5KInto,
    GemvQ6KInto,
    DequantQ8_0,
    DequantQ4K,
    DequantQ5K,
    DequantQ6K,
    DequantQ4KSoa,
    DequantQ6KSoa,
    Add2d,
    SiluMul2d,
    AddRmsNorm,
    AddRmsNormDecodeRaw,
    RmsNorm,
    RopeSeq,
    RopeSeqDynpos,
    KvCacheUpdateSeq,
    KvCacheUpdateSeqDynpos,
    FmhaPrefillGqaLpt,
    FmhaPrefillGqa,
    FmhaPrefillCausal,
    FlashAttnCausalSeq,
    FlashAttnCausalSeqDynpos,
    FmhaCausal,
    FmhaDecodeGqaSplit,
    SplitkReduceMerge,
    AttentionDecodeGrouped,
    GatherRow,
    ArgmaxBlocks,
    ArgmaxReduceBlocks,
    LmHeadArgmaxBlocks,
    QkNorm,
    QkRopeDynpos,
    QkNormRopeKvDecodeRaw,
    QkNormRopeKvPrefillRaw,
    FmhaPrefillGqaLptSplit,
    PrefillSplitkReduceMerge,
    GroupGemm,
}

/// Blocks of a launch along the three axes.
#[derive(Clone, Copy, Debug, PartialEq, Eq, Structural)]
pub struct Grid {
    pub x: usize,
    pub y: usize,
    pub z: usize,
}

/// Hints to the compiler of a kernel.
#[derive(Clone, Copy, Debug, PartialEq, Eq, Structural)]
pub enum Hint {
    /// None.
    Default,
    /// Blocks that share a multiprocessor.
    Occupancy(usize),
    /// Blocks in pairs.
    Clustered,
    /// Blocks that share a multiprocessor, blocks per cluster, and what sizes are
    /// multiples of.
    Clusters { occupancy: usize, ctas: usize, divisor: usize },
}

/// The hint for an occupancy that may be left to the compiler.
pub open spec fn occupancy_hint(occupancy: Option<usize>) -> Hint {
    match occupancy {
        Some(n) => Hint::Occupancy(n),
        None => Hint::Default,
    }
}

/// The hint for an occupancy that may be left to the compiler.
pub fn compile_options_with_occupancy(occupancy: Option<usize>) -> (r: Hint)
    ensures
        r == occupancy_hint(occupancy),
{
    match occupancy {
        Some(n) => Hint::Occupancy(n),
        None => Hint::Default,
    }
}

/// A call of a kernel: how its outputs are cut into tiles (none where it gets plain
/// pointers), its integer arguments, its compile-time parameters, its blocks where they
/// do not follow from the tiles, and the hint for its compiler.
#[derive(Debug)]
pub struct KernelCall {
    pub kernel: Kernel,
    pub tile: Vec<usize>,
    pub second_tile: Vec<usize>,
    pub ints: Vec<usize>,
    pub generics: Vec<usize>,
    pub grid: Option<Grid>,
    pub hint: Hint,
}

/// What a call is.
#[verifier::ext_equal]
pub struct CallModel {
    pub kernel: Kernel,
    pub tile: Seq<usize>,
    pub second_tile: Seq<usize>,
    pub ints: Seq<usize>,
    pub generics: Seq<usize>,
    pub grid: Option<Grid>,
    pub hint: Hint,
}

impl View for KernelCall {
    type V = CallModel;

    open spec fn view(&self) -> CallModel {
        CallModel {
            kernel: self.kernel,
            tile: self.tile@,
            second_tile: self.second_tile@,
            ints: self.ints@,
            generics: self.generics@,
            grid: self.grid,
            hint: self.hint,
        }
    }
}

/// A call with one output, no integer arguments, and neither blocks nor hint.
pub open spec fn plain_call(kernel: Kernel, tile: Seq<usize>, generics: Seq<usize>) -> CallModel {
    CallModel {
        kernel,
        tile,
        second_tile: Seq::empty(),
        ints: Seq::empty(),
        generics,
        grid: None,
        hint: Hint::Default,
    }
}

/// A call with one output, no integer arguments, and neither blocks nor hint.
pub fn new_call(kernel: Kernel, tile: Vec<usize>, generics: Vec<usize>) -> (r: KernelCall)
    ensures
        r@ == plain_call(kernel, tile@, generics@),
{
    KernelCall {
        kernel,
        tile,
        second_tile: Vec::new(),
        ints: Vec::new(),
        generics,
        grid: None,
        hint: Hint::Default,
    }
}

/// Why an operation cannot be launched.
#[derive(Clone, Copy, Debug, PartialEq, Eq, Structural)]
pub enum LaunchError {
    /// The shape of an input does not fit.
    InputShape,
    /// The shape of the output does not fit.
    OutputShape,
    /// An input has the wrong rank.
    Rank { rank: usize },
    /// There is nothing to work on.
    Empty,
    /// A weight is not quantized where it has to be.
    NotQuantized,
    /// A weight is quantized in a way that no kernel reads.
    UnsupportedType,
    /// A weight is not in the layout that the kernel reads.
    Layout,
    /// The columns of a weight are no multiple of the tile.
    Columns { cols: usize },
    /// The rows of a weight are no multiple of the tile.
    Rows { rows: usize },
    /// A size does not fit a signed 32-bit number.
    TooLarge,
    /// The scratch buffer does not hold the weight.
    ScratchTooSmall { need: usize, have: usize },
    /// There is no scratch buffer.
    NoScratch,
    /// An embedding is made of several weights.
    RowConcatEmbedding,
    /// A product with several quantized weights at once.
    RowConcatProduct,
    /// A slice of a quantized weight is not all of one projection.
    PartialProjection,
    /// Positions reach past the cache.
    Range { start: usize, end: usize, limit: usize },
    /// The position has to be known on the host.
    HostPosition,
    /// The position tensor does not hold one number.
    PositionShape,
    /// More than one token where one is expected.
    ManyTokens { tokens: usize },
    /// A layer has no cache.
    MissingCache,
    /// The shape of a cache does not fit.
    CacheShape,
    /// The head size is odd.
    OddHeadDim { head_dim: usize },
    /// The packing factor does not divide the heads.
    Group { group: usize },
    /// There is no such schedule.
    Schedule { schedule: usize },
    /// There is no such row.
    RowIndex { row: usize, rows: usize },
    /// A weight does not fill whole tiles.
    PartialTile { elems: usize },
    /// Rows cannot be cut out of a weight.
    Slice { error: WeightError },
}

} // verus!
