//! Weights on the device agree with the files that they come from.
use crate::engine::{greatest_quantized, law_greatest_quantized, layer_parts, parts_of_layer};
use crate::forward::{bad_output_projection, LayerWeights};
use crate::gguf::{dims_product, ContentModel, GgufError, TensorModel};
use crate::loader::{q8_0_check, resident_of, split_of, Q8Split, WeightLoader};
use crate::quant_scratch::{largest_projection, law_scratch_is_largest, transformer_projection};
use crate::warmup::warm_parts;
use crate::weights::{
    all_parts, column_mismatch, concat_check, concat_of, matrix_rows_before, merge_copies,
    q8_0_soa_check, quantized_check, rows_before, stack_check, MatrixWeight, QuantizedStorage,
    QuantizedWeight, RowConcat, RowCopy, Weight, WeightError,
};
use vstd::prelude::*;

verus! {

proof fn lemma_matrix_product(shape: Seq<usize>)
    requires
        shape.len() == 2,
    ensures
        shape[0] * shape[1] <= usize::MAX ==> dims_product(shape) == Some(
            (shape[0] * shape[1]) as usize,
        ),
        shape[0] * shape[1] > usize::MAX ==> dims_product(shape) is None,
{
    reveal_with_fuel(dims_product, 3);
    let one = shape.drop_last();
    assert(one =~= seq![shape[0]]);
    assert(one.drop_last() =~= Seq::<usize>::empty());
    assert(one.last() == shape[0]);
    assert(1 * shape[0] == shape[0]);
    assert(dims_product(one) == Some(shape[0]));
    assert(shape.last() == shape[1]);
}

/// A quantized matrix of a file fits its buffer: a buffer of as many bytes as the file holds of
/// the tensor is accepted for it, and no other is.
pub proof fn law_blocks_fit_their_buffer(t: TensorModel, n: usize, bytes: i32)
    requires
        t.shape.len() == 2,
        t.byte_size() == Ok::<usize, GgufError>(n),
        n <= i32::MAX,
        t.dtype is Q8_0 || t.dtype is Q4K || t.dtype is Q5K || t.dtype is Q6K,
    ensures
        quantized_check(t.dtype, seq![bytes], t.shape) is Ok <==> bytes == n,
{
    lemma_matrix_product(t.shape);
    let want = seq![n as i32];
    if bytes != n {
        assert(seq![bytes][0] != want[0]);
    }
}

/// A split Q8_0 matrix fits its buffers: integers in the shape of the matrix, one scale for
/// every 32 of them in a row.
pub proof fn law_split_fits_its_buffers(shape: Seq<usize>, data: Seq<u8>, s: Q8Split)
    requires
        q8_0_check(shape, data.len()) is Ok,
        split_of(shape, data, s),
        data.len() <= i32::MAX,
    ensures
        q8_0_soa_check(
            seq![data.len() as i32],
            seq![s.rows as i32, s.columns as i32],
            seq![s.rows as i32, (s.columns / 32) as i32],
            shape,
        ) is Ok,
        s.qs@.len() == s.rows * s.columns,
        s.scales@.len() == s.rows * (s.columns / 32),
        s.columns == 32 * (s.columns / 32),
{
    let (r, c) = (shape[0] as int, shape[1] as int);
    assert(32 * (r * (c / 32)) == r * c) by (nonlinear_arith)
        requires
            c == 32 * (c / 32),
    ;
}

/// The memory that a quantized weight takes is what was counted for its tensor in the file.
pub proof fn law_resident_weights_are_counted(w: QuantizedWeight, t: TensorModel)
    requires
        t.shape == w.shape@,
        t.shape.len() == 2,
        t.dtype is Q8_0 || t.dtype is Q4K || t.dtype is Q5K || t.dtype is Q6K,
        w.storage is Q8_0Soa <==> t.dtype is Q8_0,
        w.resident_fits(t.dtype),
    ensures
        w.resident(t.dtype) matches Ok(n) ==> (resident_of(t) matches Ok(m) ==> m == n),
        w.resident(t.dtype) matches Ok(n) ==> (w.storage matches QuantizedStorage::Native { data }
            ==> n == data.size),
        w.resident(t.dtype) matches Ok(n) ==> (w.storage matches QuantizedStorage::Q8_0Soa {
            native,
            qs,
            scales,
        } ==> n == native.size + qs.size + 2 * scales.size),
{
    lemma_matrix_product(t.shape);
}

/// Parts that stack are matrices with the same columns.
pub proof fn law_stacked_parts_have_the_same_columns(parts: Seq<Weight>, k: int, i: int)
    requires
        stack_check(parts, k) is Ok,
        0 <= i < k,
    ensures
        parts.len() >= 1,
        parts[i].dims().len() == 2,
        parts[i].dims()[1] == parts[0].dims()[1],
        rows_before(parts, k) <= usize::MAX,
    decreases k,
{
    if i < k - 1 {
        law_stacked_parts_have_the_same_columns(parts, k - 1, i);
    }
}

/// Queries, keys and values stand one below the other in this order, whatever they are made
/// of, as do gate and up.
pub proof fn law_stacks_keep_their_order(a: MatrixWeight, b: MatrixWeight, c: MatrixWeight)
    ensures
        all_parts(seq![a, b, c]) == a.stack() + b.stack() + c.stack(),
        all_parts(seq![a, b]) == a.stack() + b.stack(),
        matrix_rows_before(seq![a, b, c], 0) == 0,
        matrix_rows_before(seq![a, b, c], 1) == a.dims()[0],
        matrix_rows_before(seq![a, b, c], 2) == a.dims()[0] + b.dims()[0],
        matrix_rows_before(seq![a, b, c], 3) == a.dims()[0] + b.dims()[0] + c.dims()[0],
{
    reveal_with_fuel(all_parts, 4);
    reveal_with_fuel(matrix_rows_before, 4);
    let (one, two, three) = (seq![a], seq![a, b], seq![a, b, c]);
    assert(three.drop_last() =~= two);
    assert(two.drop_last() =~= one);
    assert(one.drop_last() =~= Seq::<MatrixWeight>::empty());
    assert(Seq::<Weight>::empty() + a.stack() =~= a.stack());
}

/// Merged matrices are copied from their own buffers, each to the rows after those before it.
pub proof fn law_merge_copies_each_matrix(ms: Seq<MatrixWeight>, copies: Seq<RowCopy>, i: int)
    requires
        merge_copies(ms, copies),
        0 <= i < ms.len(),
        ms[i].stack()[0] is F16,
    ensures
        ms[i].stack()[0] matches Weight::F16 { data, .. } && copies[i].source == data.id,
        copies[i].bytes == 2 * (ms[i].dims()[0] * ms[0].dims()[1]),
        copies[i].offset == 2 * (matrix_rows_before(ms, i) * ms[0].dims()[1]),
{
}

/// Matrices are merged only where all of them are unquantized, and the merged one has the rows
/// of all of them.
pub proof fn law_only_halves_are_merged(ms: Seq<MatrixWeight>, r: RowConcat, i: int)
    requires
        concat_of(ms, r),
        0 <= i < ms.len(),
    ensures
        r is Merge ==> ms[i].stack().len() == 1 && ms[i].stack()[0] is F16,
        r matches RowConcat::Merge { rows, cols, .. } ==> rows == matrix_rows_before(
            ms,
            ms.len() as int,
        ) && cols == ms[0].dims()[1],
        r matches RowConcat::Parts { weight } ==> weight.stack() == all_parts(ms),
        !(ms[i].stack().len() == 1 && ms[i].stack()[0] is F16) ==> r is Parts,
{
    if r is Merge {
        assert(crate::weights::is_single_half(ms[i]));
    }
    if !(ms[i].stack().len() == 1 && ms[i].stack()[0] is F16) {
        assert(!crate::weights::is_single_half(ms[i]));
    }
}

proof fn lemma_layer_part(layers: Seq<LayerWeights>, l: int, k: int)
    requires
        0 <= l < layers.len(),
        0 <= k < parts_of_layer(layers[l]).len(),
    ensures
        layer_parts(layers).contains(parts_of_layer(layers[l])[k]),
    decreases layers.len(),
{
    let part = parts_of_layer(layers[l])[k];
    let before = layer_parts(layers.drop_last());
    if l < layers.len() - 1 {
        lemma_layer_part(layers.drop_last(), l, k);
        assert(layers.drop_last()[l] == layers[l]);
        let i = choose|i: int| 0 <= i < before.len() && before[i] == part;
        assert(layer_parts(layers)[i] == part);
    } else {
        assert(layer_parts(layers)[before.len() + k] == part);
    }
}

/// The greatest over all layers is no less than what any quantized part of any of the four
/// matrices of a layer has.
pub proof fn law_scratch_suits_every_part(
    layers: Seq<LayerWeights>,
    l: int,
    m: MatrixWeight,
    k: int,
    f: spec_fn(Weight) -> int,
)
    requires
        0 <= l < layers.len(),
        m == layers[l].qkv_proj || m == layers[l].o_proj || m == layers[l].gate_up_proj || m
            == layers[l].down_proj,
        0 <= k < m.stack().len(),
        !(m.stack()[k] is F16),
    ensures
        greatest_quantized(layer_parts(layers), f) matches Some(n) && f(m.stack()[k]) <= n,
{
    let w = layers[l];
    let all = parts_of_layer(w);
    let (q, o, g) = (
        w.qkv_proj.stack().len() as int,
        w.o_proj.stack().len() as int,
        w.gate_up_proj.stack().len() as int,
    );
    let at = if m == w.qkv_proj {
        k
    } else if m == w.o_proj {
        q + k
    } else if m == w.gate_up_proj {
        q + o + k
    } else {
        q + o + g + k
    };
    assert(all[at] == m.stack()[k]);
    lemma_layer_part(layers, l, at);
    law_greatest_quantized(layer_parts(layers), f);
    let parts = layer_parts(layers);
    let i = choose|i: int| 0 <= i < parts.len() && parts[i] == m.stack()[k];
    assert(!(parts[i] is F16));
}

/// The scratch that is counted before loading holds every quantized projection of the file in
/// half precision, where that can be counted, and is no larger than one of them.
pub proof fn law_scratch_holds_every_projection(loader: WeightLoader<'_>, c: ContentModel, i: int)
    requires
        loader matches WeightLoader::Gguf { file, .. } && file.content@ == c,
        largest_projection(c.tensor_infos) is Ok,
        0 <= i < c.tensor_infos.len(),
        transformer_projection(c.tensor_infos[i].1),
        forall|k: int|
            0 <= k < c.tensor_infos.len() && transformer_projection(#[trigger] c.tensor_infos[k].1)
                ==> (dims_product(c.tensor_infos[k].1.shape) matches Some(n) ==> 2 * n
                <= usize::MAX),
    ensures
        dims_product(c.tensor_infos[i].1.shape) matches Some(n) && 2 * n <= loader.scratch_bytes(),
        loader.scratch_bytes() > 0 ==> exists|k: int|
            0 <= k < c.tensor_infos.len() && transformer_projection(#[trigger] c.tensor_infos[k].1)
                && dims_product(c.tensor_infos[k].1.shape) is Some && loader.scratch_bytes() == 2
                * dims_product(c.tensor_infos[k].1.shape)->0,
{
    law_scratch_is_largest(c.tensor_infos);
    assert(transformer_projection(c.tensor_infos[i].1));
}

/// The first layer is named whose output projection does not take the attention.
pub proof fn law_output_projections_take_the_attention(
    layers: Seq<LayerWeights>,
    attn: usize,
    l: int,
    i: int,
)
    requires
        0 <= i < l <= usize::MAX,
    ensures
        bad_output_projection(layers, attn, l) is None ==> layers[i].o_proj.dims().len() == 2
            && layers[i].o_proj.dims()[1] == attn,
        bad_output_projection(layers, attn, l) matches Some(b) ==> b < l && !(
        layers[b as int].o_proj.dims().len() == 2 && layers[b as int].o_proj.dims()[1] == attn)
            && (i < b ==> layers[i].o_proj.dims().len() == 2 && layers[i].o_proj.dims()[1] == attn),
    decreases l,
{
    if i < l - 1 {
        law_output_projections_take_the_attention(layers, attn, l - 1, i);
    } else if l > 1 {
        law_output_projections_take_the_attention(layers, attn, l - 1, l - 2);
    }
}

/// Matrices stand one below the other only where there is one and all have the same columns.
pub proof fn law_stacked_matrices_have_the_same_columns(ms: Seq<MatrixWeight>, i: int)
    requires
        concat_check(ms) is Ok,
        0 <= i < ms.len(),
    ensures
        ms[i].dims()[1] == ms[0].dims()[1],
        concat_check(Seq::empty()) == Err::<(), WeightError>(WeightError::NoParts),
{
    if ms[i].dims()[1] != ms[0].dims()[1] {
        assert(column_mismatch(ms, i));
    }
}

/// Every part of the embedding, of the head and of the matrices of every layer is warmed up.
pub proof fn law_every_part_is_warmed(
    embed: MatrixWeight,
    head: MatrixWeight,
    layers: Seq<LayerWeights>,
    l: int,
    m: MatrixWeight,
    k: int,
)
    requires
        m == embed || m == head || (0 <= l < layers.len() && (m == layers[l].qkv_proj || m
            == layers[l].o_proj || m == layers[l].gate_up_proj || m == layers[l].down_proj)),
        0 <= k < m.stack().len(),
    ensures
        warm_parts(embed, head, layers).contains(m.stack()[k]),
{
    let all = warm_parts(embed, head, layers);
    let part = m.stack()[k];
    let (e, h) = (embed.stack().len() as int, head.stack().len() as int);
    if m == embed {
        assert(all[k] == part);
    } else if m == head {
        assert(all[e + k] == part);
    } else {
        let w = layers[l];
        let (q, o, g) = (
            w.qkv_proj.stack().len() as int,
            w.o_proj.stack().len() as int,
            w.gate_up_proj.stack().len() as int,
        );
        let at = if m == w.qkv_proj {
            k
        } else if m == w.o_proj {
            q + k
        } else if m == w.gate_up_proj {
            q + o + k
        } else {
            q + o + g + k
        };
        assert(parts_of_layer(w)[at] == part);
        lemma_layer_part(layers, l, at);
        let inner = layer_parts(layers);
        let i = choose|i: int| 0 <= i < inner.len() && inner[i] == part;
        assert(all[e + h + i] == part);
    }
}

} // verus!
