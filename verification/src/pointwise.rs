//! Sums, gated products, norms, rows and greatest elements: which kernels compute them.
use crate::gguf::{dims_product, product_of_dims};
use crate::kernel::{new_call, plain_call, CallModel, Kernel, KernelCall, LaunchError};
use crate::products::is_rows;
use vstd::prelude::*;

verus! {

/// Elements that an elementwise kernel works on at once.
pub const POINTWISE_BLOCK: usize = 1024;

/// Elements that a kernel on single heads works on at once.
pub const VEC_BLOCK: usize = 128;

/// Elements that a norm of a head works on at once.
pub const RMS_BLOCK: usize = 128;

/// Elements that a norm of a hidden state works on at once.
pub const RMS_BLOCK_HIDDEN: usize = 512;

/// Elements that a residual sum with norm works on at once.
pub const ADD_RMS_BLOCK: usize = 2048;

/// The same for one token.
pub const ADD_RMS_DECODE_BLOCK: usize = 4096;

/// Elements of which the greatest is found at once.
pub const ARGMAX_BLOCK: usize = 128;

/// Whether two shapes are the same.
pub fn same_shape(a: &[usize], b: &[usize]) -> (r: bool)
    ensures
        r == (a@ == b@),
{
    if a.len() != b.len() {
        return false;
    }
    let mut i: usize = 0;
    while i < a.len()
        invariant
            a.len() == b.len(),
            i <= a.len(),
            forall|k: int| 0 <= k < i ==> a@[k] == b@[k],
        decreases a.len() - i,
    {
        if a[i] != b[i] {
            return false;
        }
        i = i + 1;
    }
    assert(a@ =~= b@);
    true
}

/// The kernel for two matrices of one shape, element by element.
pub open spec fn pair_spec(kernel: Kernel, a: Seq<usize>, b: Seq<usize>, out: Seq<usize>) -> Result<
    CallModel,
    LaunchError,
> {
    if a != b {
        Err(LaunchError::InputShape)
    } else if a.len() != 2 {
        Err(LaunchError::Rank { rank: a.len() as usize })
    } else if out != a {
        Err(LaunchError::OutputShape)
    } else {
        Ok(plain_call(kernel, seq![1, POINTWISE_BLOCK], seq![POINTWISE_BLOCK]))
    }
}

fn pair_call(kernel: Kernel, a: &[usize], b: &[usize], out: &[usize]) -> (r: Result<
    KernelCall,
    LaunchError,
>)
    ensures
        match r {
            Ok(c) => pair_spec(kernel, a@, b@, out@) == Ok::<CallModel, LaunchError>(c@),
            Err(e) => pair_spec(kernel, a@, b@, out@) == Err::<CallModel, LaunchError>(e),
        },
{
    if !same_shape(a, b) {
        return Err(LaunchError::InputShape);
    }
    if a.len() != 2 {
        return Err(LaunchError::Rank { rank: a.len() });
    }
    if !same_shape(out, a) {
        return Err(LaunchError::OutputShape);
    }
    let tile: Vec<usize> = vec![1, POINTWISE_BLOCK];
    let generics: Vec<usize> = vec![POINTWISE_BLOCK];
    assert(tile@ =~= seq![1, POINTWISE_BLOCK]);
    assert(generics@ =~= seq![POINTWISE_BLOCK]);
    Ok(new_call(kernel, tile, generics))
}

/// The kernel that adds two matrices of one shape.
pub fn add_2d_into(lhs: &[usize], rhs: &[usize], out: &[usize]) -> (r: Result<
    KernelCall,
    LaunchError,
>)
    ensures
        match r {
            Ok(c) => pair_spec(Kernel::Add2d, lhs@, rhs@, out@) == Ok::<CallModel, LaunchError>(c@),
            Err(e) => pair_spec(Kernel::Add2d, lhs@, rhs@, out@) == Err::<CallModel, LaunchError>(
                e,
            ),
        },
{
    pair_call(Kernel::Add2d, lhs, rhs, out)
}

/// The kernel that multiplies a matrix by another after its gate.
pub fn silu_mul_2d_into(gate: &[usize], up: &[usize], out: &[usize]) -> (r: Result<
    KernelCall,
    LaunchError,
>)
    ensures
        match r {
            Ok(c) => pair_spec(Kernel::SiluMul2d, gate@, up@, out@) == Ok::<CallModel, LaunchError>(
                c@,
            ),
            Err(e) => pair_spec(Kernel::SiluMul2d, gate@, up@, out@) == Err::<
                CallModel,
                LaunchError,
            >(e),
        },
{
    pair_call(Kernel::SiluMul2d, gate, up, out)
}

/// A copy within the device: where it reads, where it writes, and its bytes.
#[derive(Clone, Copy, Debug, PartialEq, Eq, Structural)]
pub struct DeviceCopy {
    pub from_byte: usize,
    pub to_byte: usize,
    pub bytes: usize,
}

/// The copy of `out_cols` columns of row `i`, which has `width` columns, from `col_offset` on.
pub open spec fn row_copy(width: usize, col_offset: usize, out_cols: usize, i: int) -> DeviceCopy {
    DeviceCopy {
        from_byte: (2 * (i * width + col_offset)) as usize,
        to_byte: (2 * i * out_cols) as usize,
        bytes: (2 * out_cols) as usize,
    }
}

/// The columns of a matrix; a single row needs none of them to be told where it lies.
pub open spec fn row_width(input: Seq<usize>) -> usize {
    if input.len() == 2 {
        input[1]
    } else {
        0
    }
}

/// The copies that cut columns out of each row of a matrix.
pub open spec fn slice_spec(input: Seq<usize>, col_offset: usize, out_cols: usize) -> Result<
    Seq<DeviceCopy>,
    LaunchError,
> {
    if input[0] != 1 && input.len() != 2 {
        Err(LaunchError::Rank { rank: input.len() as usize })
    } else {
        Ok(
            Seq::new(
                input[0] as nat,
                |i: int| row_copy(row_width(input), col_offset, out_cols, i),
            ),
        )
    }
}

/// The bytes of each copy, and where it reads and writes, can be counted.
pub open spec fn slice_fits(input: Seq<usize>, col_offset: usize, out_cols: usize) -> bool {
    &&& input.len() >= 1
    &&& input[0] > 0 ==> 2 * ((input[0] - 1) * row_width(input) + col_offset) <= usize::MAX
    &&& input[0] > 0 ==> 2 * (input[0] - 1) * out_cols <= usize::MAX
    &&& input[0] > 0 ==> 2 * out_cols <= usize::MAX
}

/// The copies that cut columns out of each row of a matrix.
pub fn slice_cols_into(input: &[usize], col_offset: usize, out_cols: usize) -> (r: Result<
    Vec<DeviceCopy>,
    LaunchError,
>)
    requires
        slice_fits(input@, col_offset, out_cols),
    ensures
        match r {
            Ok(v) => slice_spec(input@, col_offset, out_cols) == Ok::<Seq<DeviceCopy>, LaunchError>(
                v@,
            ),
            Err(e) => slice_spec(input@, col_offset, out_cols) == Err::<
                Seq<DeviceCopy>,
                LaunchError,
            >(e),
        },
        input@.len() == 2 ==> (r matches Ok(v) && v@.len() == input@[0]),
{
    let rows: usize = input[0];
    if rows != 1 && input.len() != 2 {
        return Err(LaunchError::Rank { rank: input.len() });
    }
    let width: usize = if input.len() == 2 {
        input[1]
    } else {
        0
    };
    let mut copies: Vec<DeviceCopy> = Vec::new();
    let mut i: usize = 0;
    while i < rows
        invariant
            rows == input@[0],
            width == row_width(input@),
            slice_fits(input@, col_offset, out_cols),
            i <= rows,
            copies@.len() == i,
            forall|k: int|
                0 <= k < i ==> copies@[k] == row_copy(width, col_offset, out_cols, k),
        decreases rows - i,
    {
        assert(0 <= i * width <= (rows - 1) * width && 0 <= 2 * i * out_cols <= 2 * (rows - 1)
            * out_cols && 2 * i * out_cols == 2 * (i * out_cols)) by (nonlinear_arith)
            requires
                0 <= i < rows,
                0 <= width,
                0 <= out_cols,
        ;
        copies.push(
            DeviceCopy {
                from_byte: 2 * (i * width + col_offset),
                to_byte: 2 * (i * out_cols),
                bytes: 2 * out_cols,
            },
        );
        i = i + 1;
    }
    assert(copies@ =~= Seq::new(
        rows as nat,
        |k: int| row_copy(row_width(input@), col_offset, out_cols, k),
    ));
    Ok(copies)
}

/// Cutting columns out of a matrix copies each element of them to its place: column `c` of
/// the cut in row `r` comes from column `col_offset + c` of the same row, nothing outside the
/// row is read, and no two rows are written to one place.
pub proof fn law_slice_copies_columns(
    rows: usize,
    width: usize,
    col_offset: usize,
    out_cols: usize,
    r: int,
    c: int,
)
    requires
        slice_fits(seq![rows, width], col_offset, out_cols),
        col_offset + out_cols <= width,
        0 <= r < rows,
        0 <= c < out_cols,
    ensures
        slice_spec(seq![rows, width], col_offset, out_cols) matches Ok(copies) && copies.len()
            == rows && {
            let x = copies[r];
            &&& x.from_byte + 2 * c == 2 * (r * width + col_offset + c)
            &&& x.to_byte + 2 * c == 2 * (r * out_cols + c)
            &&& 2 * (c + 1) <= x.bytes
            &&& 2 * (r * width) <= x.from_byte && x.from_byte + x.bytes <= 2 * ((r + 1) * width)
            &&& r + 1 < rows ==> x.to_byte + x.bytes == copies[r + 1].to_byte
        },
{
    assert(0 <= r * width <= (rows - 1) * width && (r + 1) * width == r * width + width && 0 <= 2
        * r * out_cols <= 2 * (rows - 1) * out_cols && 2 * r * out_cols == 2 * (r * out_cols) && 2
        * (r + 1) * out_cols == 2 * r * out_cols + 2 * out_cols && (r + 1 < rows ==> 2 * (r + 1)
        * out_cols <= 2 * (rows - 1) * out_cols)) by (nonlinear_arith)
        requires
            0 <= r < rows,
            0 <= width,
            0 <= out_cols,
    ;
}

/// The rows of a tensor whose last dimension is `n`: one for a vector.
pub open spec fn norm_rows(shape: Seq<usize>, n: usize) -> Result<usize, LaunchError> {
    if shape.len() == 1 {
        if shape[0] == n {
            Ok(1)
        } else {
            Err(LaunchError::InputShape)
        }
    } else if shape.len() == 2 {
        if shape[1] == n {
            Ok(shape[0])
        } else {
            Err(LaunchError::InputShape)
        }
    } else {
        Err(LaunchError::Rank { rank: shape.len() as usize })
    }
}

fn rows_to_norm(shape: &[usize], n: usize) -> (r: Result<usize, LaunchError>)
    ensures
        r == norm_rows(shape@, n),
{
    if shape.len() == 1 {
        if shape[0] == n {
            Ok(1)
        } else {
            Err(LaunchError::InputShape)
        }
    } else if shape.len() == 2 {
        if shape[1] == n {
            Ok(shape[0])
        } else {
            Err(LaunchError::InputShape)
        }
    } else {
        Err(LaunchError::Rank { rank: shape.len() })
    }
}

/// A norm: the rows it works on, whether its inputs are copied into matrices first, and
/// its kernel.
#[derive(Debug)]
pub struct NormPlan {
    pub rows: usize,
    pub copies: bool,
    pub call: KernelCall,
}

/// What a norm is.
#[verifier::ext_equal]
pub struct NormModel {
    pub rows: usize,
    pub copies: bool,
    pub call: CallModel,
}

impl View for NormPlan {
    type V = NormModel;

    open spec fn view(&self) -> NormModel {
        NormModel { rows: self.rows, copies: self.copies, call: self.call@ }
    }
}

/// How a residual sum and its norm over the last `n` elements are computed.
pub open spec fn add_norm_spec(
    residual: Seq<usize>,
    x: Seq<usize>,
    n: usize,
    out: Seq<usize>,
    residual_out: Seq<usize>,
    block: usize,
) -> Result<NormModel, LaunchError> {
    if residual != x {
        Err(LaunchError::InputShape)
    } else {
        match norm_rows(residual, n) {
            Err(e) => Err(e),
            Ok(rows) => if dims_product(out) != Some((rows * n) as usize) || dims_product(
                residual_out,
            ) != Some((rows * n) as usize) {
                Err(LaunchError::OutputShape)
            } else {
                Ok(
                    NormModel {
                        rows,
                        copies: residual.len() == 1,
                        call: CallModel {
                            second_tile: seq![1, n],
                            ..plain_call(Kernel::AddRmsNorm, seq![1, n], seq![n, block])
                        },
                    },
                )
            },
        }
    }
}

/// Whether a shape holds `n` elements.
fn holds(shape: &[usize], n: usize) -> (r: bool)
    ensures
        r == (dims_product(shape@) == Some(n)),
{
    match product_of_dims(shape) {
        Some(m) => m == n,
        None => false,
    }
}

/// How a residual sum and its norm over the last `n` elements are computed.
pub fn add_rms_norm_into(
    residual: &[usize],
    x: &[usize],
    n: usize,
    out: &[usize],
    residual_out: &[usize],
    block: usize,
) -> (r: Result<NormPlan, LaunchError>)
    requires
        norm_rows(residual@, n) matches Ok(rows) ==> rows * n <= usize::MAX,
    ensures
        match r {
            Ok(p) => add_norm_spec(residual@, x@, n, out@, residual_out@, block) == Ok::<
                NormModel,
                LaunchError,
            >(p@),
            Err(e) => add_norm_spec(residual@, x@, n, out@, residual_out@, block) == Err::<
                NormModel,
                LaunchError,
            >(e),
        },
{
    if !same_shape(residual, x) {
        return Err(LaunchError::InputShape);
    }
    let rows: usize = rows_to_norm(residual, n)?;
    let want: usize = rows * n;
    if !holds(out, want) || !holds(residual_out, want) {
        return Err(LaunchError::OutputShape);
    }
    let mut call: KernelCall = new_call(Kernel::AddRmsNorm, vec![1, n], vec![n, block]);
    call.second_tile = vec![1, n];
    assert(call@ =~= (CallModel {
        second_tile: seq![1, n],
        ..plain_call(Kernel::AddRmsNorm, seq![1, n], seq![n, block])
    }));
    Ok(NormPlan { rows, copies: residual.len() == 1, call })
}

/// Elements that a norm over `n` elements works on at once: the chosen size for hidden
/// states where it divides them, the size for heads for anything short.
pub open spec fn norm_block(n: usize, chosen: usize) -> usize {
    if n >= RMS_BLOCK_HIDDEN {
        if chosen <= n && n % chosen == 0 {
            chosen
        } else {
            RMS_BLOCK_HIDDEN
        }
    } else {
        RMS_BLOCK
    }
}

/// The size that norms of hidden states use: the asked one where it is a power of two.
pub fn rms_hidden_block(candidate: usize) -> (r: usize)
    ensures
        r == if crate::knobs::is_power_of_two(candidate as nat) {
            candidate
        } else {
            RMS_BLOCK_HIDDEN
        },
{
    if crate::knobs::power_of_two(candidate) {
        candidate
    } else {
        RMS_BLOCK_HIDDEN
    }
}

/// How a norm over the last `n` elements is computed.
pub open spec fn norm_spec(x: Seq<usize>, n: usize, out: Seq<usize>, chosen: usize) -> Result<
    NormModel,
    LaunchError,
> {
    match norm_rows(x, n) {
        Err(e) => Err(e),
        Ok(rows) => if dims_product(out) != Some((rows * n) as usize) {
            Err(LaunchError::OutputShape)
        } else {
            Ok(
                NormModel {
                    rows,
                    copies: x.len() == 1,
                    call: plain_call(Kernel::RmsNorm, seq![1, n], seq![n, norm_block(n, chosen)]),
                },
            )
        },
    }
}

/// How a norm over the last `n` elements is computed.
pub fn rms_norm_into(x: &[usize], n: usize, out: &[usize], chosen: usize) -> (r: Result<
    NormPlan,
    LaunchError,
>)
    requires
        norm_rows(x@, n) matches Ok(rows) ==> rows * n <= usize::MAX,
        chosen > 0,
    ensures
        match r {
            Ok(p) => norm_spec(x@, n, out@, chosen) == Ok::<NormModel, LaunchError>(p@),
            Err(e) => norm_spec(x@, n, out@, chosen) == Err::<NormModel, LaunchError>(e),
        },
{
    let rows: usize = rows_to_norm(x, n)?;
    if !holds(out, rows * n) {
        return Err(LaunchError::OutputShape);
    }
    let block: usize = if n >= RMS_BLOCK_HIDDEN {
        if chosen <= n && n % chosen == 0 {
            chosen
        } else {
            RMS_BLOCK_HIDDEN
        }
    } else {
        RMS_BLOCK
    };
    let tile: Vec<usize> = vec![1, n];
    let generics: Vec<usize> = vec![n, block];
    assert(tile@ =~= seq![1, n]);
    assert(generics@ =~= seq![n, block]);
    Ok(NormPlan { rows, copies: x.len() == 1, call: new_call(Kernel::RmsNorm, tile, generics) })
}

/// The kernel that takes one row out of a matrix.
pub open spec fn row_spec(src: Seq<usize>, row_idx: usize, out: Seq<usize>) -> Result<
    CallModel,
    LaunchError,
> {
    if src.len() != 2 {
        Err(LaunchError::Rank { rank: src.len() as usize })
    } else if row_idx >= src[0] {
        Err(LaunchError::RowIndex { row: row_idx, rows: src[0] })
    } else if out != seq![src[1]] {
        Err(LaunchError::OutputShape)
    } else {
        Ok(
            CallModel {
                ints: seq![row_idx],
                ..plain_call(Kernel::GatherRow, seq![VEC_BLOCK], seq![VEC_BLOCK])
            },
        )
    }
}

/// The kernel that takes one row out of a matrix.
pub fn gather_row_into(src: &[usize], row_idx: usize, out: &[usize]) -> (r: Result<
    KernelCall,
    LaunchError,
>)
    ensures
        match r {
            Ok(c) => row_spec(src@, row_idx, out@) == Ok::<CallModel, LaunchError>(c@),
            Err(e) => row_spec(src@, row_idx, out@) == Err::<CallModel, LaunchError>(e),
        },
{
    if src.len() != 2 {
        return Err(LaunchError::Rank { rank: src.len() });
    }
    if row_idx >= src[0] {
        return Err(LaunchError::RowIndex { row: row_idx, rows: src[0] });
    }
    if !is_rows(out, src[1]) {
        return Err(LaunchError::OutputShape);
    }
    let mut call: KernelCall = new_call(Kernel::GatherRow, vec![VEC_BLOCK], vec![VEC_BLOCK]);
    call.ints = vec![row_idx];
    assert(call@ =~= (CallModel {
        ints: seq![row_idx],
        ..plain_call(Kernel::GatherRow, seq![VEC_BLOCK], seq![VEC_BLOCK])
    }));
    Ok(call)
}

/// Blocks of `block` elements that cover `len` elements.
pub open spec fn blocks_for(len: int, block: int) -> int {
    (len + block - 1) / block
}

/// The blocks cover every element, and one less would not.
pub proof fn law_blocks_cover(len: int, block: int)
    requires
        len >= 1,
        block >= 1,
    ensures
        blocks_for(len, block) >= 1,
        (blocks_for(len, block) - 1) * block < len <= blocks_for(len, block) * block,
{
    let b = blocks_for(len, block);
    assert((b - 1) * block < len <= b * block && b >= 1) by (nonlinear_arith)
        requires
            b == (len + block - 1) / block,
            len >= 1,
            block >= 1,
    ;
}

/// Blocks of `block` elements that cover `len` elements.
pub fn block_count(len: usize, block: usize) -> (r: usize)
    requires
        block >= 1,
        len + block - 1 <= usize::MAX,
    ensures
        r == blocks_for(len as int, block as int),
{
    (len + (block - 1)) / block
}

/// The kernel that finds the greatest element of each block, and the number of blocks.
pub open spec fn argmax_spec(len: usize, block: usize) -> Result<(CallModel, usize), LaunchError> {
    if len == 0 {
        Err(LaunchError::Empty)
    } else {
        Ok(
            (
                CallModel {
                    second_tile: seq![1],
                    ints: seq![len],
                    ..plain_call(Kernel::ArgmaxBlocks, seq![1], seq![block])
                },
                blocks_for(len as int, block as int) as usize,
            ),
        )
    }
}

/// The kernel that finds the greatest element of each block, and the number of blocks.
pub fn argmax_blocks(len: usize, block: usize) -> (r: Result<(KernelCall, usize), LaunchError>)
    requires
        block >= 1,
        len + block - 1 <= usize::MAX,
    ensures
        match r {
            Ok((c, n)) => argmax_spec(len, block) == Ok::<(CallModel, usize), LaunchError>(
                (c@, n),
            ),
            Err(e) => argmax_spec(len, block) == Err::<(CallModel, usize), LaunchError>(e),
        },
{
    if len == 0 {
        return Err(LaunchError::Empty);
    }
    let mut call: KernelCall = new_call(Kernel::ArgmaxBlocks, vec![1], vec![block]);
    call.second_tile = vec![1];
    call.ints = vec![len];
    let n: usize = block_count(len, block);
    assert(call@ =~= (CallModel {
        second_tile: seq![1],
        ints: seq![len],
        ..plain_call(Kernel::ArgmaxBlocks, seq![1], seq![block])
    }));
    Ok((call, n))
}

} // verus!
