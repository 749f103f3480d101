//! The scratch buffer into which prefill expands quantized matrices.
use crate::dequant::GgmlType;
use crate::gguf::{dims_product, Content, TensorInfo, TensorModel};
use crate::text::{chars, find_dot, is_text, next_dot};
use vstd::prelude::*;

verus! {

/// Why there is no scratch plan, or no tile count.
#[derive(Clone, Copy, Debug, PartialEq, Eq, Structural)]
pub enum ScratchError {
    /// The element count of a projection matrix overflows.
    ElementOverflow,
    /// The file has no quantized projection matrix.
    NoProjection,
    /// The buffer size in bytes overflows.
    ByteOverflow,
    ZeroTile,
    /// The matrix is larger than the buffer.
    Capacity { matrix_elems: usize, scratch_elems: usize },
    /// The matrix is not a whole number of tiles.
    PartialTile { matrix_elems: usize, tile_elems: usize },
}

impl ScratchError {
    /// The error in words.
    pub open spec fn text(self) -> Seq<char> {
        match self {
            ScratchError::ElementOverflow => "tensor element count overflows usize"@,
            ScratchError::NoProjection =>
                "GGUF has no supported quantized transformer projection matrices"@,
            ScratchError::ByteOverflow => "prefill dequant scratch size overflows usize"@,
            ScratchError::ZeroTile => "tile_elems must be non-zero"@,
            ScratchError::Capacity { .. } =>
                "matrix does not fit in the prefill dequant scratch"@,
            ScratchError::PartialTile { .. } =>
                "matrix element count is not divisible by dequant tile size"@,
        }
    }

    /// The error in words.
    pub fn message(&self) -> (r: &'static str)
        ensures
            r@ == self.text(),
    {
        match *self {
            ScratchError::ElementOverflow => "tensor element count overflows usize",
            ScratchError::NoProjection => "GGUF has no supported quantized transformer projection matrices",
            ScratchError::ByteOverflow => "prefill dequant scratch size overflows usize",
            ScratchError::ZeroTile => "tile_elems must be non-zero",
            ScratchError::Capacity { .. } => "matrix does not fit in the prefill dequant scratch",
            ScratchError::PartialTile { .. } => "matrix element count is not divisible by dequant tile size",
        }
    }
}

/// The one scratch buffer that prefill reuses for every projection matrix.
#[derive(Debug)]
pub struct PrefillDequantScratchPlan {
    /// Half-precision elements that the buffer holds.
    pub elems: usize,
    /// Size of the buffer in bytes.
    pub bytes: usize,
    /// The largest projection matrix, which sets the size.
    pub tensor_name: String,
    pub shape: Vec<usize>,
}

/// The kinds of projection matrix of a transformer block, as they end a tensor name.
pub open spec fn projection_kind(s: Seq<char>) -> bool {
    ||| s == "attn_q.weight"@
    ||| s == "attn_k.weight"@
    ||| s == "attn_v.weight"@
    ||| s == "attn_output.weight"@
    ||| s == "ffn_gate.weight"@
    ||| s == "ffn_up.weight"@
    ||| s == "ffn_down.weight"@
}

/// Whether `name` is `blk.`, a layer, a dot and a projection kind. The layer is what
/// stands between the first two dots.
pub open spec fn projection_name(name: Seq<char>) -> bool {
    let first = next_dot(name, 0);
    let second = next_dot(name, first + 1);
    &&& second < name.len()
    &&& name.subrange(0, first) == "blk"@
    &&& projection_kind(name.subrange(second + 1, name.len() as int))
}

/// The quantized element types that have a kernel.
pub open spec fn has_quant_kernel(t: GgmlType) -> bool {
    t is Q8_0 || t is Q4K || t is Q6K || t is Q5K
}

/// Whether a tensor is a quantized projection matrix of a transformer block.
pub open spec fn transformer_projection(t: TensorModel) -> bool {
    has_quant_kernel(t.dtype) && t.shape.len() == 2 && projection_name(t.name)
}

/// Whether `s` is a projection kind.
fn is_projection_kind(s: &[char]) -> (r: bool)
    ensures
        r == projection_kind(s@),
{
    is_text(s, "attn_q.weight") || is_text(s, "attn_k.weight") || is_text(s, "attn_v.weight")
        || is_text(s, "attn_output.weight") || is_text(s, "ffn_gate.weight") || is_text(
        s,
        "ffn_up.weight",
    ) || is_text(s, "ffn_down.weight")
}

/// Whether a tensor is a quantized projection matrix of a transformer block.
pub fn is_transformer_projection(info: &TensorInfo) -> (r: bool)
    ensures
        r == transformer_projection(info@),
{
    match info.dtype {
        GgmlType::Q8_0 | GgmlType::Q4K | GgmlType::Q6K | GgmlType::Q5K => {},
        _ => {
            return false;
        },
    }
    if info.shape.len() != 2 {
        return false;
    }
    let name: Vec<char> = chars(info.name.as_str());
    let first: usize = find_dot(name.as_slice(), 0);
    if first >= name.len() {
        return false;
    }
    let second: usize = find_dot(name.as_slice(), first + 1);
    if second >= name.len() {
        return false;
    }
    is_text(vstd::slice::slice_subrange(name.as_slice(), 0, first), "blk")
        && is_projection_kind(vstd::slice::slice_subrange(name.as_slice(), second + 1, name.len()))
}

/// The largest projection matrix of the tensors, with its element count: the first
/// of them where several are as large. None counts that has no elements.
pub open spec fn largest_projection(s: Seq<(Seq<char>, TensorModel)>) -> Result<
    Option<(TensorModel, usize)>,
    ScratchError,
>
    decreases s.len(),
{
    if s.len() == 0 {
        Ok(None)
    } else {
        let t = s.last().1;
        match largest_projection(s.drop_last()) {
            Err(e) => Err(e),
            Ok(best) => if !transformer_projection(t) {
                Ok(best)
            } else {
                match dims_product(t.shape) {
                    None => Err(ScratchError::ElementOverflow),
                    Some(n) => if n > (match best {
                        Some((_, most)) => most,
                        None => 0,
                    }) {
                        Ok(Some((t, n)))
                    } else {
                        Ok(best)
                    },
                }
            },
        }
    }
}

proof fn lemma_largest_error(s: Seq<(Seq<char>, TensorModel)>, k: int)
    requires
        0 <= k <= s.len(),
        largest_projection(s.subrange(0, k)) is Err,
    ensures
        largest_projection(s) == largest_projection(s.subrange(0, k)),
    decreases s.len() - k,
{
    if k < s.len() {
        assert(s.subrange(0, k + 1).drop_last() =~= s.subrange(0, k));
        lemma_largest_error(s, k + 1);
    } else {
        assert(s.subrange(0, k) =~= s);
    }
}

/// The matrix that sets the scratch size is a projection matrix of the file, and no
/// projection matrix of the file is larger. Token embeddings and the output matrix,
/// which are no projection matrices, never set it.
pub proof fn law_scratch_is_largest(s: Seq<(Seq<char>, TensorModel)>)
    ensures
        largest_projection(s) matches Ok(best) ==> {
            &&& best matches Some((t, n)) ==> {
                &&& n > 0
                &&& transformer_projection(t)
                &&& dims_product(t.shape) == Some(n)
                &&& exists|i: int| 0 <= i < s.len() && #[trigger] s[i].1 == t
            }
            &&& forall|i: int|
                0 <= i < s.len() && transformer_projection(#[trigger] s[i].1) ==> (dims_product(
                    s[i].1.shape,
                ) matches Some(m) && m <= (match best {
                    Some((_, n)) => n,
                    None => 0,
                }))
        },
    decreases s.len(),
{
    if s.len() > 0 {
        let head = s.drop_last();
        law_scratch_is_largest(head);
        match largest_projection(s) {
            Ok(best) => {
                assert forall|i: int|
                    0 <= i < s.len() && transformer_projection(
                        #[trigger] s[i].1,
                    ) implies (dims_product(s[i].1.shape) matches Some(m) && m <= (match best {
                    Some((_, n)) => n,
                    None => 0,
                })) by {
                    if i < s.len() - 1 {
                        assert(s[i] == head[i]);
                        assert(transformer_projection(head[i].1));
                    }
                }
                match best {
                    Some((t, n)) => {
                        if largest_projection(head) == Ok::<
                            Option<(TensorModel, usize)>,
                            ScratchError,
                        >(best) {
                            let i = choose|i: int| 0 <= i < head.len() && #[trigger] head[i].1 == t;
                            assert(s[i].1 == t);
                        } else {
                            assert(s[s.len() - 1].1 == t);
                        }
                    },
                    None => {},
                }
            },
            Err(_) => {},
        }
    }
}

/// The embedding table and the output matrix have no projection name.
pub proof fn law_embeddings_are_no_projection()
    ensures
        !projection_name("token_embd.weight"@),
        !projection_name("output.weight"@),
{
    reveal_strlit("token_embd.weight");
    reveal_strlit("output.weight");
    reveal_strlit("blk");
    let a = "token_embd.weight"@;
    let b = "output.weight"@;
    reveal_with_fuel(next_dot, 20);
    assert(next_dot(a, 0) == 10);
    assert(next_dot(b, 0) == 6);
    assert(a.subrange(0, 10).len() == 10);
    assert(b.subrange(0, 6).len() == 6);
}

/// Plans the one scratch buffer that prefill reuses: as large as the largest
/// projection matrix of a transformer block. Embeddings and the output matrix are
/// left out; the output matrix stays quantized for good.
pub fn prefill_dequant_scratch_plan(content: &Content) -> (r: Result<
    PrefillDequantScratchPlan,
    ScratchError,
>)
    ensures
        match r {
            Ok(plan) => largest_projection(content@.tensor_infos) matches Ok(Some((t, n)))
                && plan.elems == n && plan.bytes == 2 * n && plan.tensor_name@ == t.name
                && plan.shape@ == t.shape,
            Err(e) => match largest_projection(content@.tensor_infos) {
                Err(x) => e == x,
                Ok(None) => e == ScratchError::NoProjection,
                Ok(Some((_, n))) => 2 * n > usize::MAX && e == ScratchError::ByteOverflow,
            },
        },
{
    let ghost all = content@.tensor_infos;
    let count: usize = content.tensor_infos.len();
    let mut best: Option<usize> = None;
    let mut best_elems: usize = 0;
    let mut i: usize = 0;
    assert(all.subrange(0, 0) =~= Seq::empty());
    while i < count
        invariant
            i <= count,
            count == all.len(),
            all == content@.tensor_infos,
            best matches Some(k) ==> k < i,
            largest_projection(all.subrange(0, i as int)) == Ok::<
                Option<(TensorModel, usize)>,
                ScratchError,
            >(
                match best {
                    Some(k) => Some((all[k as int].1, best_elems)),
                    None => None,
                },
            ),
            best is None ==> best_elems == 0,
        decreases count - i,
    {
        let info: &TensorInfo = content.tensor_infos.value_at(i);
        assert(all.subrange(0, i + 1).drop_last() =~= all.subrange(0, i as int));
        if is_transformer_projection(info) {
            match info.elem_count() {
                Ok(elems) => {
                    if elems > best_elems {
                        best = Some(i);
                        best_elems = elems;
                    }
                },
                Err(_) => {
                    proof {
                        lemma_largest_error(all, i + 1);
                    }
                    return Err(ScratchError::ElementOverflow);
                },
            }
        }
        i = i + 1;
    }
    assert(all.subrange(0, all.len() as int) =~= all);
    match best {
        None => Err(ScratchError::NoProjection),
        Some(k) => {
            let info: &TensorInfo = content.tensor_infos.value_at(k);
            let bytes: usize = match best_elems.checked_mul(2) {
                Some(b) => b,
                None => {
                    return Err(ScratchError::ByteOverflow);
                },
            };
            Ok(
                PrefillDequantScratchPlan {
                    elems: best_elems,
                    bytes,
                    tensor_name: info.name.clone(),
                    shape: copy_dims(info.shape.as_slice()),
                },
            )
        },
    }
}

/// A copy of dimensions.
pub fn copy_dims(s: &[usize]) -> (r: Vec<usize>)
    ensures
        r@ == s@,
{
    let mut r: Vec<usize> = Vec::new();
    let mut i: usize = 0;
    while i < s.len()
        invariant
            i <= s.len(),
            r@ =~= s@.subrange(0, i as int),
        decreases s.len() - i,
    {
        r.push(s[i]);
        i = i + 1;
    }
    assert(s@.subrange(0, s@.len() as int) =~= s@);
    r
}

/// Tiles of `tile_elems` elements that cover a matrix of `matrix_elems` elements,
/// where it fits in the scratch buffer.
pub open spec fn scratch_tiles(
    matrix_elems: usize,
    tile_elems: usize,
    scratch_elems: usize,
) -> Result<usize, ScratchError> {
    if tile_elems == 0 {
        Err(ScratchError::ZeroTile)
    } else if matrix_elems > scratch_elems {
        Err(ScratchError::Capacity { matrix_elems, scratch_elems })
    } else if matrix_elems % tile_elems != 0 {
        Err(ScratchError::PartialTile { matrix_elems, tile_elems })
    } else {
        Ok((matrix_elems / tile_elems) as usize)
    }
}

/// The tiles make up the matrix and stay within the scratch buffer; where they do not, the
/// first reason is told: no tile, too little scratch, or a part of a tile left over.
pub proof fn law_tiles_make_up_the_matrix(matrix: usize, tile: usize, scratch: usize, tiles: usize)
    ensures
        scratch_tiles(matrix, tile, scratch) == Ok::<usize, ScratchError>(tiles) ==> tiles * tile
            == matrix && matrix <= scratch && tile >= 1,
        tile >= 1 && tiles * tile == matrix && matrix <= scratch ==> scratch_tiles(
            matrix,
            tile,
            scratch,
        ) == Ok::<usize, ScratchError>(tiles),
        scratch_tiles(matrix, 0, scratch) == Err::<usize, ScratchError>(ScratchError::ZeroTile),
        tile >= 1 && matrix > scratch ==> scratch_tiles(matrix, tile, scratch) == Err::<
            usize,
            ScratchError,
        >(ScratchError::Capacity { matrix_elems: matrix, scratch_elems: scratch }),
{
    let (m, t, n) = (matrix as int, tile as int, tiles as int);
    if t >= 1 {
        assert(m % t == 0 && n == m / t ==> n * t == m) by (nonlinear_arith)
            requires
                t >= 1,
        ;
        assert(n * t == m ==> m % t == 0 && m / t == n) by (nonlinear_arith)
            requires
                t >= 1,
        ;
        assert(0 <= m / t <= m) by (nonlinear_arith)
            requires
                t >= 1,
                m >= 0,
        ;
    }
}

/// Tiles of `tile_elems` elements that cover a matrix of `matrix_elems` elements,
/// where it fits in the scratch buffer.
pub fn dequant_tiles_for_scratch(
    matrix_elems: usize,
    tile_elems: usize,
    scratch_elems: usize,
) -> (r: Result<usize, ScratchError>)
    ensures
        r == scratch_tiles(matrix_elems, tile_elems, scratch_elems),
{
    if tile_elems == 0 {
        return Err(ScratchError::ZeroTile);
    }
    if matrix_elems > scratch_elems {
        return Err(ScratchError::Capacity { matrix_elems, scratch_elems });
    }
    if matrix_elems % tile_elems != 0 {
        return Err(ScratchError::PartialTile { matrix_elems, tile_elems });
    }
    Ok(matrix_elems / tile_elems)
}

} // verus!
