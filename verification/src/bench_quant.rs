//! The benchmarks of products with quantized matrices: which tensors and shapes run, and
//! how.
use crate::dequant::GgmlType;
use crate::gguf::{Content, ContentModel, GgufError, TensorInfo, TensorModel};
use crate::kernel::{new_call, plain_call, CallModel, Grid, Hint, Kernel, KernelCall};
use crate::loader::model_unsigned;
use crate::names::lookup;
use crate::products::{
    q4k_soa_gemv_generics, q4k_soa_generics, q6k_soa_gemv_generics, q6k_soa_generics,
};
use crate::text::{decimal_text, push_decimal};
use vstd::prelude::*;

verus! {

/// What a tensor is for.
#[derive(Clone, Copy, Debug, PartialEq, Eq, Structural)]
pub enum BenchKind {
    AttnQ,
    AttnK,
    AttnV,
    AttnOutput,
    FfnGate,
    FfnUp,
    FfnDown,
    LmHead,
}

impl BenchKind {
    /// The name in the output.
    pub open spec fn text(self) -> Seq<char> {
        match self {
            BenchKind::AttnQ => "attn_q"@,
            BenchKind::AttnK => "attn_k"@,
            BenchKind::AttnV => "attn_v"@,
            BenchKind::AttnOutput => "attn_output"@,
            BenchKind::FfnGate => "ffn_gate"@,
            BenchKind::FfnUp => "ffn_up"@,
            BenchKind::FfnDown => "ffn_down"@,
            BenchKind::LmHead => "lm_head"@,
        }
    }

    /// The name in the output.
    pub fn name(self) -> (r: &'static str)
        ensures
            r@ == self.text(),
    {
        match self {
            BenchKind::AttnQ => "attn_q",
            BenchKind::AttnK => "attn_k",
            BenchKind::AttnV => "attn_v",
            BenchKind::AttnOutput => "attn_output",
            BenchKind::FfnGate => "ffn_gate",
            BenchKind::FfnUp => "ffn_up",
            BenchKind::FfnDown => "ffn_down",
            BenchKind::LmHead => "lm_head",
        }
    }
}

/// The projections of a layer, in order.
pub const LAYER_KINDS: [BenchKind; 7] = [
    BenchKind::AttnQ,
    BenchKind::AttnK,
    BenchKind::AttnV,
    BenchKind::AttnOutput,
    BenchKind::FfnGate,
    BenchKind::FfnUp,
    BenchKind::FfnDown,
];

/// A tensor that is measured.
#[derive(Debug)]
pub struct BenchTensor {
    pub kind: BenchKind,
    pub name: String,
    pub dtype: GgmlType,
    pub rows: usize,
    pub k: usize,
    pub weight_bytes: usize,
}

/// A tensor that is measured.
#[verifier::ext_equal]
pub struct BenchModel {
    pub kind: BenchKind,
    pub name: Seq<char>,
    pub dtype: GgmlType,
    pub rows: usize,
    pub k: usize,
    pub weight_bytes: usize,
}

impl View for BenchTensor {
    type V = BenchModel;

    open spec fn view(&self) -> BenchModel {
        BenchModel {
            kind: self.kind,
            name: self.name@,
            dtype: self.dtype,
            rows: self.rows,
            k: self.k,
            weight_bytes: self.weight_bytes,
        }
    }
}

/// The models of tensors.
pub open spec fn bench_models(v: Seq<BenchTensor>) -> Seq<BenchModel> {
    v.map_values(|t: BenchTensor| t@)
}

/// Why a benchmark does not run.
#[derive(Clone, Copy, Debug, PartialEq, Eq, Structural)]
pub enum QuantBenchError {
    Gguf { error: GgufError },
    /// A projection is not a matrix.
    Rank { rank: usize },
    /// The file has no quantized projection.
    NoTensors,
    /// No kernel multiplies this type.
    NoKernel { dtype: GgmlType },
    /// The bytes are not those of the tensor.
    ByteLength { got: usize, expected: usize },
    RowsTooLarge,
    ColumnsTooLarge,
    StrideTooLarge,
    /// The rows are no multiple of the tile.
    RowsTile { rows: usize },
    /// The columns are no multiple of the tile.
    ColumnsTile { cols: usize },
}

/// Whether a type is measured.
pub open spec fn is_measured(dtype: GgmlType) -> bool {
    dtype is Q4K || dtype is Q5K || dtype is Q6K || dtype is Q8_0
}

/// Whether a tensor of this use, type and shape is listed.
pub open spec fn listed(
    out: Seq<BenchModel>,
    kind: BenchKind,
    dtype: GgmlType,
    rows: usize,
    k: usize,
    i: int,
) -> bool {
    0 <= i < out.len() && out[i].kind == kind && out[i].dtype == dtype && out[i].rows == rows
        && out[i].k == k
}

/// The list with a tensor, where it is quantized and none like it is listed.
pub open spec fn with_unique(out: Seq<BenchModel>, kind: BenchKind, t: TensorModel) -> Result<
    Seq<BenchModel>,
    QuantBenchError,
> {
    if !is_measured(t.dtype) {
        Ok(out)
    } else if t.shape.len() != 2 {
        Err(QuantBenchError::Rank { rank: t.shape.len() as usize })
    } else if exists|i: int| listed(out, kind, t.dtype, t.shape[0], t.shape[1], i) {
        Ok(out)
    } else {
        match t.byte_size() {
            Err(error) => Err(QuantBenchError::Gguf { error }),
            Ok(n) => Ok(
                out.push(
                    BenchModel {
                        kind,
                        name: t.name,
                        dtype: t.dtype,
                        rows: t.shape[0],
                        k: t.shape[1],
                        weight_bytes: n,
                    },
                ),
            ),
        }
    }
}

/// Adds a tensor, where it is quantized and none like it is listed.
pub fn push_unique(kind: BenchKind, info: &TensorInfo, out: &mut Vec<BenchTensor>) -> (r: Result<
    (),
    QuantBenchError,
>)
    ensures
        match r {
            Ok(_) => with_unique(bench_models(old(out)@), kind, info@) == Ok::<
                Seq<BenchModel>,
                QuantBenchError,
            >(bench_models(final(out)@)),
            Err(e) => final(out)@ == old(out)@ && with_unique(
                bench_models(old(out)@),
                kind,
                info@,
            ) == Err::<Seq<BenchModel>, QuantBenchError>(e),
        },
{
    match info.dtype {
        GgmlType::Q4K | GgmlType::Q5K | GgmlType::Q6K | GgmlType::Q8_0 => {},
        _ => {
            return Ok(());
        },
    }
    if info.shape.len() != 2 {
        return Err(QuantBenchError::Rank { rank: info.shape.len() });
    }
    let (rows, k) = (info.shape[0], info.shape[1]);
    let ghost all = bench_models(out@);
    let mut i: usize = 0;
    while i < out.len()
        invariant
            i <= out@.len(),
            out@ == old(out)@,
            all == bench_models(out@),
            is_measured(info@.dtype),
            info@.shape.len() == 2,
            rows == info@.shape[0] && k == info@.shape[1],
            forall|j: int| 0 <= j < i ==> !listed(all, kind, info@.dtype, rows, k, j),
        decreases out@.len() - i,
    {
        let t: &BenchTensor = &out[i];
        assert(all[i as int] == t@);
        if t.kind == kind && t.dtype == info.dtype && t.rows == rows && t.k == k {
            assert(listed(all, kind, info@.dtype, rows, k, i as int));
            return Ok(());
        }
        i = i + 1;
    }
    assert forall|j: int| !listed(all, kind, info@.dtype, rows, k, j) by {}
    let weight_bytes: usize = match info.size_in_bytes() {
        Ok(n) => n,
        Err(error) => {
            return Err(QuantBenchError::Gguf { error });
        },
    };
    let t = BenchTensor {
        kind,
        name: info.name.as_str().to_owned(),
        dtype: info.dtype,
        rows,
        k,
        weight_bytes,
    };
    let ghost m = t@;
    out.push(t);
    assert(bench_models(out@) =~= all.push(m));
    Ok(())
}

/// The name of a projection in a GGUF file.
pub open spec fn projection_text(layer: nat, kind: BenchKind) -> Seq<char> {
    "blk."@ + decimal_text(layer) + "."@ + kind.text() + ".weight"@
}

fn projection_name(layer: usize, kind: BenchKind) -> (r: String)
    ensures
        r@ == projection_text(layer as nat, kind),
{
    let mut s: String = "blk.".to_owned();
    push_decimal(&mut s, layer);
    s.append(".");
    s.append(kind.name());
    s.append(".weight");
    s
}

/// The list of the first `n` projections of a file, seven per layer.
pub open spec fn projections(c: ContentModel, n: nat) -> Result<Seq<BenchModel>, QuantBenchError>
    decreases n,
{
    if n == 0 {
        Ok(Seq::empty())
    } else {
        match projections(c, (n - 1) as nat) {
            Err(e) => Err(e),
            Ok(out) => {
                let kind = LAYER_KINDS@[(n - 1) % 7];
                match lookup(
                    c.tensor_infos,
                    projection_text(((n - 1) / 7) as nat, kind),
                ) {
                    None => Ok(out),
                    Some(t) => with_unique(out, kind, t),
                }
            },
        }
    }
}

proof fn lemma_projections_error(c: ContentModel, k: nat, n: nat)
    requires
        k <= n,
        projections(c, k) is Err,
    ensures
        projections(c, n) == projections(c, k),
    decreases n,
{
    if k < n {
        lemma_projections_error(c, k, (n - 1) as nat);
    }
}

/// How many layers a file has.
pub open spec fn blocks_of(c: ContentModel) -> Result<u32, GgufError> {
    match lookup(c.metadata, "qwen3.block_count"@) {
        None => Err(GgufError::NoMetadata),
        Some(v) => match model_unsigned(v) {
            None => Err(GgufError::NotUnsigned),
            Some(n) => if n > u32::MAX {
                Err(GgufError::NotU32 { value: n })
            } else {
                Ok(n as u32)
            },
        },
    }
}

/// The tensor of the output head: the embedding where there is no other.
pub open spec fn head_name(c: ContentModel) -> Seq<char> {
    if lookup(c.tensor_infos, "output.weight"@) is Some {
        "output.weight"@
    } else {
        "token_embd.weight"@
    }
}

/// The tensors of a file that are measured: one of each use, type and shape.
pub open spec fn bench_tensors(c: ContentModel) -> Result<Seq<BenchModel>, QuantBenchError> {
    match blocks_of(c) {
        Err(error) => Err(QuantBenchError::Gguf { error }),
        Ok(blocks) => match projections(c, (7 * blocks) as nat) {
            Err(e) => Err(e),
            Ok(out) => match lookup(c.tensor_infos, head_name(c)) {
                None => Err(QuantBenchError::Gguf { error: GgufError::NoTensor }),
                Some(t) => match with_unique(out, BenchKind::LmHead, t) {
                    Err(e) => Err(e),
                    Ok(all) => if all.len() == 0 {
                        Err(QuantBenchError::NoTensors)
                    } else {
                        Ok(all)
                    },
                },
            },
        },
    }
}

/// The tensors of a file that are measured.
pub fn discover_bench_tensors(content: &Content) -> (r: Result<Vec<BenchTensor>, QuantBenchError>)
    ensures
        match r {
            Ok(v) => bench_tensors(content@) == Ok::<Seq<BenchModel>, QuantBenchError>(
                bench_models(v@),
            ),
            Err(e) => bench_tensors(content@) == Err::<Seq<BenchModel>, QuantBenchError>(e),
        },
{
    let ghost c = content@;
    let blocks: u32 = match content.metadata_required("qwen3.block_count") {
        Err(error) => {
            return Err(QuantBenchError::Gguf { error });
        },
        Ok(v) => match v.to_u32() {
            Err(error) => {
                return Err(QuantBenchError::Gguf { error });
            },
            Ok(n) => n,
        },
    };
    let mut out: Vec<BenchTensor> = Vec::new();
    assert(bench_models(out@) =~= Seq::empty());
    let mut layer: u32 = 0;
    while layer < blocks
        invariant
            layer <= blocks,
            c == content@,
            blocks_of(c) == Ok::<u32, GgufError>(blocks),
            projections(c, (7 * layer) as nat) == Ok::<Seq<BenchModel>, QuantBenchError>(
                bench_models(out@),
            ),
        decreases blocks - layer,
    {
        let mut j: usize = 0;
        while j < 7
            invariant
                j <= 7,
                layer < blocks,
                c == content@,
                blocks_of(c) == Ok::<u32, GgufError>(blocks),
                projections(c, (7 * layer + j) as nat) == Ok::<Seq<BenchModel>, QuantBenchError>(
                    bench_models(out@),
                ),
            decreases 7 - j,
        {
            let ghost n = 7 * layer + j;
            assert(n / 7 == layer && n % 7 == j);
            let kind: BenchKind = LAYER_KINDS[j];
            let name: String = projection_name(layer as usize, kind);
            match content.tensor_infos.get(name.as_str()) {
                Some(info) => {
                    match push_unique(kind, info, &mut out) {
                        Ok(_) => {},
                        Err(e) => {
                            proof {
                                lemma_projections_error(c, (n + 1) as nat, (7 * blocks) as nat);
                            }
                            return Err(e);
                        },
                    }
                },
                None => {},
            }
            j = j + 1;
        }
        layer = layer + 1;
    }
    let lm: &TensorInfo = if content.has_tensor("output.weight") {
        match content.tensor_info("output.weight") {
            Ok(t) => t,
            Err(error) => {
                return Err(QuantBenchError::Gguf { error });
            },
        }
    } else {
        match content.tensor_info("token_embd.weight") {
            Ok(t) => t,
            Err(error) => {
                return Err(QuantBenchError::Gguf { error });
            },
        }
    };
    push_unique(BenchKind::LmHead, lm, &mut out)?;
    if out.len() == 0 {
        return Err(QuantBenchError::NoTensors);
    }
    Ok(out)
}

/// No two tensors of the list have the same use, type and shape.
pub open spec fn all_unlike(s: Seq<BenchModel>) -> bool {
    forall|i: int, j: int|
        #![trigger s[i], s[j]]
        0 <= i < j < s.len() ==> !(s[i].kind == s[j].kind && s[i].dtype == s[j].dtype && s[i].rows
            == s[j].rows && s[i].k == s[j].k)
}

proof fn lemma_with_unique_unlike(out: Seq<BenchModel>, kind: BenchKind, t: TensorModel)
    requires
        all_unlike(out),
    ensures
        with_unique(out, kind, t) matches Ok(now) ==> all_unlike(now),
{
    match with_unique(out, kind, t) {
        Ok(now) => {
            if now != out {
                assert forall|i: int, j: int|
                    #![trigger now[i], now[j]]
                    0 <= i < j < now.len() implies !(now[i].kind == now[j].kind && now[i].dtype
                    == now[j].dtype && now[i].rows == now[j].rows && now[i].k == now[j].k) by {
                    if j == out.len() {
                        assert(!listed(out, kind, t.dtype, t.shape[0], t.shape[1], i));
                    } else {
                        assert(now[i] == out[i] && now[j] == out[j]);
                    }
                }
            }
        },
        Err(_) => {},
    }
}

proof fn lemma_projections_unlike(c: ContentModel, n: nat)
    ensures
        projections(c, n) matches Ok(s) ==> all_unlike(s),
    decreases n,
{
    if n > 0 {
        lemma_projections_unlike(c, (n - 1) as nat);
        match projections(c, (n - 1) as nat) {
            Ok(out) => {
                let kind = LAYER_KINDS@[(n - 1) % 7];
                match lookup(c.tensor_infos, projection_text(((n - 1) / 7) as nat, kind)) {
                    Some(t) => {
                        lemma_with_unique_unlike(out, kind, t);
                    },
                    None => {},
                }
            },
            Err(_) => {},
        }
    }
}

/// Each use, type and shape of a file is measured once.
pub proof fn law_tensors_are_unlike(c: ContentModel)
    ensures
        bench_tensors(c) matches Ok(s) ==> all_unlike(s),
{
    match blocks_of(c) {
        Ok(blocks) => {
            lemma_projections_unlike(c, (7 * blocks) as nat);
            match projections(c, (7 * blocks) as nat) {
                Ok(out) => match lookup(c.tensor_infos, head_name(c)) {
                    Some(t) => {
                        lemma_with_unique_unlike(out, BenchKind::LmHead, t);
                    },
                    None => {},
                },
                Err(_) => {},
            }
        },
        Err(_) => {},
    }
}

/// The kernel that multiplies a type.
pub fn kernel_name_for_dtype(dtype: GgmlType) -> (r: Result<&'static str, QuantBenchError>)
    ensures
        match r {
            Ok(s) => is_measured(dtype) && s@ == (match dtype {
                GgmlType::Q4K => "q4k_gemv"@,
                GgmlType::Q5K => "q5k_gemv"@,
                GgmlType::Q6K => "q6k_gemv"@,
                _ => "q8_0_gemv"@,
            }),
            Err(e) => !is_measured(dtype) && e == (QuantBenchError::NoKernel { dtype }),
        },
{
    match dtype {
        GgmlType::Q4K => Ok("q4k_gemv"),
        GgmlType::Q5K => Ok("q5k_gemv"),
        GgmlType::Q6K => Ok("q6k_gemv"),
        GgmlType::Q8_0 => Ok("q8_0_gemv"),
        _ => Err(QuantBenchError::NoKernel { dtype }),
    }
}

/// How the product of a tensor is launched: its sizes, one block of threads per row, and
/// the memory that the threads of a block share.
#[derive(Clone, Copy, Debug, PartialEq, Eq, Structural)]
pub struct QuantLaunch {
    pub rows: i32,
    pub k: i32,
    pub row_stride_bytes: i32,
    pub grid: Grid,
    pub threads: usize,
    pub shared_bytes: usize,
}

/// How the product of a tensor is launched.
pub open spec fn quant_launch(t: BenchModel, raw: nat) -> Result<QuantLaunch, QuantBenchError> {
    let stride = t.weight_bytes as int / t.rows as int;
    if raw != t.weight_bytes {
        Err(QuantBenchError::ByteLength { got: raw as usize, expected: t.weight_bytes })
    } else if t.rows > i32::MAX {
        Err(QuantBenchError::RowsTooLarge)
    } else if t.k > i32::MAX {
        Err(QuantBenchError::ColumnsTooLarge)
    } else if stride > i32::MAX {
        Err(QuantBenchError::StrideTooLarge)
    } else {
        Ok(
            QuantLaunch {
                rows: t.rows as i32,
                k: t.k as i32,
                row_stride_bytes: stride as i32,
                grid: Grid { x: t.rows, y: 1, z: 1 },
                threads: 256,
                shared_bytes: 1024,
            },
        )
    }
}

/// How the product of a tensor is launched.
pub fn plan_quant_launch(t: &BenchTensor, raw: usize) -> (r: Result<QuantLaunch, QuantBenchError>)
    requires
        t.rows > 0,
    ensures
        r == quant_launch(t@, raw as nat),
{
    if raw != t.weight_bytes {
        return Err(QuantBenchError::ByteLength { got: raw, expected: t.weight_bytes });
    }
    if t.rows > 0x7fff_ffff {
        return Err(QuantBenchError::RowsTooLarge);
    }
    if t.k > 0x7fff_ffff {
        return Err(QuantBenchError::ColumnsTooLarge);
    }
    let stride: usize = t.weight_bytes / t.rows;
    if stride > 0x7fff_ffff {
        return Err(QuantBenchError::StrideTooLarge);
    }
    Ok(
        QuantLaunch {
            rows: t.rows as i32,
            k: t.k as i32,
            row_stride_bytes: stride as i32,
            grid: Grid { x: t.rows, y: 1, z: 1 },
            threads: 256,
            shared_bytes: 1024,
        },
    )
}

/// Types that are kept split.
#[derive(Clone, Copy, Debug, PartialEq, Eq, Structural)]
#[allow(non_camel_case_types)]
pub enum SplitType {
    Q8_0,
    Q4K,
    Q6K,
}

/// A product that is measured on made-up weights.
#[derive(Clone, Copy, Debug, PartialEq, Eq, Structural)]
pub struct SplitShape {
    pub dtype: SplitType,
    pub rows: usize,
    pub k: usize,
}

/// Bytes of split weights: integers and scales, and the minimums of Q4K.
pub open spec fn split_bytes(s: SplitShape) -> int {
    let elems = s.rows * s.k;
    match s.dtype {
        SplitType::Q8_0 => elems + s.rows * (s.k as int / 32) * 2,
        SplitType::Q4K => elems / 2 + elems / 32 * 4,
        SplitType::Q6K => elems + elems / 16 + elems / 256 * 2,
    }
}

/// Bytes of split weights.
pub fn weight_bytes(s: SplitShape) -> (r: usize)
    requires
        s.rows * s.k * 2 <= usize::MAX,
    ensures
        r == split_bytes(s),
{
    assert(s.rows * s.k >= 0) by (nonlinear_arith)
        requires
            s.rows >= 0,
            s.k >= 0,
    ;
    let elems: usize = s.rows * s.k;
    match s.dtype {
        SplitType::Q8_0 => {
            let per_row: usize = s.k / 32;
            assert(s.rows * per_row * 2 <= s.rows * s.k && 0 <= s.rows * per_row) by (nonlinear_arith)
                requires
                    per_row == s.k as int / 32,
                    s.rows >= 0,
                    s.k >= 0,
            ;
            elems + s.rows * per_row * 2
        },
        SplitType::Q4K => elems / 2 + elems / 32 * 4,
        SplitType::Q6K => elems + elems / 16 + elems / 256 * 2,
    }
}

/// Bytes that a benchmark cycles through, so that no cache holds them.
pub const CACHE_DEFEAT_BYTES: usize = 67108864;

/// Copies of the weights at most.
pub const MAX_COPIES: usize = 8;

/// Copies of weights that a benchmark cycles through.
pub open spec fn copies_of(bytes: int) -> int {
    let n = CACHE_DEFEAT_BYTES as int / bytes;
    if n < 1 {
        1
    } else if n > MAX_COPIES {
        MAX_COPIES as int
    } else {
        n
    }
}

/// Copies of weights that a benchmark cycles through.
pub fn weight_copies(bytes: usize) -> (r: usize)
    requires
        bytes > 0,
    ensures
        r == copies_of(bytes as int),
{
    let n: usize = CACHE_DEFEAT_BYTES / bytes;
    if n < 1 {
        1
    } else if n > MAX_COPIES {
        MAX_COPIES
    } else {
        n
    }
}

/// Rows that are worked on at once.
pub open spec fn row_tile(dtype: SplitType) -> usize {
    match dtype {
        SplitType::Q8_0 => 8,
        SplitType::Q4K => 16,
        SplitType::Q6K => 8,
    }
}

/// Rows have to be a multiple of this.
pub open spec fn row_divisor(dtype: SplitType) -> usize {
    match dtype {
        SplitType::Q8_0 => 8,
        _ => 16,
    }
}

/// How a product with split weights runs.
pub open spec fn split_run(s: SplitShape, occupancy: usize) -> Result<CallModel, QuantBenchError> {
    if s.rows % row_divisor(s.dtype) != 0 {
        Err(QuantBenchError::RowsTile { rows: s.rows })
    } else if s.k % 512 != 0 {
        Err(QuantBenchError::ColumnsTile { cols: s.k })
    } else {
        let (kernel, generics) = (match s.dtype {
            SplitType::Q8_0 => (Kernel::GemvQ8_0Soa, seq![s.k, s.k / 32, 1]),
            SplitType::Q4K => (Kernel::GemvQ4KSoa, q4k_soa_generics(s.k)),
            SplitType::Q6K => (Kernel::GemvQ6KSoa, q6k_soa_generics(s.k)),
        });
        Ok(
            CallModel {
                ints: seq![s.rows],
                grid: Some(Grid { x: s.rows / row_tile(s.dtype), y: 1, z: 1 }),
                hint: Hint::Occupancy(occupancy),
                ..plain_call(kernel, seq![row_tile(s.dtype)], generics)
            },
        )
    }
}

/// How a product with split weights runs.
pub fn run_shape(s: SplitShape, occupancy: usize) -> (r: Result<KernelCall, QuantBenchError>)
    ensures
        match r {
            Ok(c) => split_run(s, occupancy) == Ok::<CallModel, QuantBenchError>(c@),
            Err(e) => split_run(s, occupancy) == Err::<CallModel, QuantBenchError>(e),
        },
{
    let divisor: usize = match s.dtype {
        SplitType::Q8_0 => 8,
        _ => 16,
    };
    if s.rows % divisor != 0 {
        return Err(QuantBenchError::RowsTile { rows: s.rows });
    }
    if s.k % 512 != 0 {
        return Err(QuantBenchError::ColumnsTile { cols: s.k });
    }
    let (kernel, tile, generics): (Kernel, usize, Vec<usize>) = match s.dtype {
        SplitType::Q8_0 => (Kernel::GemvQ8_0Soa, 8, vec![s.k, s.k / 32, 1]),
        SplitType::Q4K => (Kernel::GemvQ4KSoa, 16, q4k_soa_gemv_generics(s.k)),
        SplitType::Q6K => (Kernel::GemvQ6KSoa, 8, q6k_soa_gemv_generics(s.k)),
    };
    let mut call: KernelCall = new_call(kernel, vec![tile], generics);
    call.ints = vec![s.rows];
    call.grid = Some(Grid { x: s.rows / tile, y: 1, z: 1 });
    call.hint = Hint::Occupancy(occupancy);
    assert(call@ =~= split_run(s, occupancy)->Ok_0);
    Ok(call)
}

/// Bytes that a product moves.
pub open spec fn moved_of(weights: usize, rows: usize, k: usize) -> int {
    weights + 2 * k + 2 * rows
}

/// Bytes that a product moves: weights, the vector and the result, two per element of
/// these.
pub fn moved_bytes(weights: usize, rows: usize, k: usize) -> (r: usize)
    requires
        weights + 2 * k + 2 * rows <= usize::MAX,
    ensures
        r == moved_of(weights, rows, k),
{
    weights + k * 2 + rows * 2
}

/// A made-up integer of split Q8_0 weights.
pub fn q8_0_value(row: usize, col: usize) -> (r: i8)
    requires
        row + col <= usize::MAX,
    ensures
        r == (row + col / 32 + col % 32) % 127 - 63,
{
    let n: usize = (row + col / 32 + col % 32) % 127;
    (n as i8) - 63
}

/// A made-up integer, or scale, of split Q6K weights.
pub fn q6k_value(i: usize, salt: usize) -> (r: i8)
    requires
        i + salt <= usize::MAX,
    ensures
        r == (i + salt) % 63 - 31,
{
    let n: usize = (i + salt) % 63;
    (n as i8) - 31
}

/// Two made-up integers of split Q4K weights, in one byte.
pub fn q4k_value(i: usize, salt: usize) -> (r: u8)
    requires
        i + salt <= usize::MAX,
    ensures
        r == (i + salt) % 251,
{
    ((i + salt) % 251) as u8
}

/// A made-up scale of split Q4K weights in hundredths, and minimum in thousandths.
pub fn q4k_scale(i: usize, salt: usize) -> (r: (usize, usize))
    requires
        i + 3 * salt <= usize::MAX,
    ensures
        r.0 == (i + salt) % 64,
        r.1 == (i + 3 * salt) % 64,
{
    ((i + salt) % 64, (i + salt * 3) % 64)
}

/// What tells the made-up weights of copies apart.
pub fn copy_salt(copy: usize) -> (r: usize)
    requires
        copy <= MAX_COPIES,
    ensures
        r == 7919 * copy,
{
    copy * 7919
}

/// A made-up element of the vector, in parts of 125.
pub fn activation_value(i: usize) -> (r: i32)
    ensures
        r == i % 251 - 125,
{
    let n: usize = i % 251;
    (n as i32) - 125
}

/// A made-up element of queries, keys or values, in parts of 80.
pub fn pattern_value(i: usize, salt: usize) -> (r: i32)
    requires
        37 * i + 17 * salt <= usize::MAX,
    ensures
        r == (37 * i + 17 * salt) % 101 - 50,
{
    let n: usize = (i * 37 + salt * 17) % 101;
    (n as i32) - 50
}

} // verus!
