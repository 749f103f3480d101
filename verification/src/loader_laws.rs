//! Which tensors and entries of a file a model is made of, name by name.
use crate::config::{law_valid_config, Qwen3Config};
use crate::engine::{LayerTensor, ModelTensor};
use crate::dequant::{dequantize_half_spec, DequantError, Element, GgmlType, HalfElement};
use crate::gguf::{
    dims_product, law_tensor_range, tensor_range, ContentModel, Float, GgufError, TensorModel,
    ValueModel,
};
use crate::gguf_laws::{bytes16, bytes32, bytes64, lies};
use crate::loader::{
    gguf_config_spec, gguf_extension, gguf_name, gguf_suffix, host_gguf, host_sharded,
    indexed_tensor, located_gguf, model_unsigned, q8_0_check, resident_index_total, resident_of,
    resident_of_shard, resident_total, shard_names, upload_error, upload_of, LoadError,
    WeightUpload,
};
use crate::names::lookup;
use crate::quant_scratch::{projection_kind, projection_name};
use crate::shard::{shard_elements, shard_tensor, sized, ShardError, ShardModel, ShardType};
use crate::text::{
    decimal_text, has_prefix, is_digit, law_decimal_round_trip, lemma_decimal_text_value, lower_all,
    next_dot,
};
use vstd::prelude::*;

verus! {

proof fn lemma_next_dot(s: Seq<char>, from: int, at: int)
    requires
        0 <= from <= at < s.len(),
        s[at] == '.',
        forall|i: int| from <= i < at ==> s[i] != '.',
    ensures
        next_dot(s, from) == at,
    decreases at - from,
{
    if from < at {
        lemma_next_dot(s, from + 1, at);
    }
}

proof fn lemma_layer_name(n: usize, suffix: Seq<char>, stored: Seq<char>, has_output: bool)
    requires
        gguf_suffix(suffix) == Some(stored),
    ensures
        gguf_name("model.layers."@ + decimal_text(n as nat) + "."@ + suffix, has_output) == Ok::<
            Seq<char>,
            LoadError,
        >("blk."@ + decimal_text(n as nat) + "."@ + stored),
{
    reveal_strlit("model.layers.");
    reveal_strlit("model.embed_tokens.weight");
    reveal_strlit("model.norm.weight");
    reveal_strlit("lm_head.weight");
    reveal_strlit(".");
    let d = decimal_text(n as nat);
    let prefix = "model.layers."@;
    let name = prefix + d + "."@ + suffix;
    let rest = name.subrange(prefix.len() as int, name.len() as int);
    lemma_decimal_text_value(n as nat);
    law_decimal_round_trip(n);
    assert(rest =~= d + "."@ + suffix);
    assert forall|i: int| 0 <= i < d.len() implies rest[i] != '.' by {
        assert(rest[i] == d[i]);
        assert(is_digit(d[i]));
    }
    assert(rest[d.len() as int] == '.');
    lemma_next_dot(rest, 0, d.len() as int);
    assert(rest.subrange(0, d.len() as int) =~= d);
    assert(rest.subrange(d.len() as int + 1, rest.len() as int) =~= suffix);
    assert(name[6] == 'l');
    assert("model.embed_tokens.weight"@[6] == 'e');
    assert("model.norm.weight"@[6] == 'n');
    assert(name[0] == 'm');
    assert("lm_head.weight"@[0] == 'l');
    assert(name.subrange(0, prefix.len() as int) =~= prefix);
    assert(has_prefix(name, prefix));
}

proof fn lemma_attention_suffixes()
    ensures
        gguf_suffix("self_attn.q_proj.weight"@) == Some("attn_q.weight"@),
        gguf_suffix("self_attn.k_proj.weight"@) == Some("attn_k.weight"@),
        gguf_suffix("self_attn.v_proj.weight"@) == Some("attn_v.weight"@),
        gguf_suffix("self_attn.o_proj.weight"@) == Some("attn_output.weight"@),
        gguf_suffix("self_attn.q_norm.weight"@) == Some("attn_q_norm.weight"@),
        gguf_suffix("self_attn.k_norm.weight"@) == Some("attn_k_norm.weight"@),
{
    lemma_suffixes();
}

proof fn lemma_suffixes()
    ensures
        ({
            let q = "self_attn.q_proj.weight"@;
            let k = "self_attn.k_proj.weight"@;
            let v = "self_attn.v_proj.weight"@;
            let o = "self_attn.o_proj.weight"@;
            let qn = "self_attn.q_norm.weight"@;
            let kn = "self_attn.k_norm.weight"@;
            &&& q.len() == 23 && k.len() == 23 && v.len() == 23 && o.len() == 23 && qn.len() == 23
                && kn.len() == 23
            &&& q[10] == 'q' && k[10] == 'k' && v[10] == 'v' && o[10] == 'o' && qn[10] == 'q'
                && kn[10] == 'k'
            &&& q[12] == 'p' && k[12] == 'p' && qn[12] == 'n' && kn[12] == 'n'
            &&& "input_layernorm.weight"@.len() == 22
            &&& "post_attention_layernorm.weight"@.len() == 31
            &&& "mlp.gate_proj.weight"@.len() == 20
            &&& "mlp.down_proj.weight"@.len() == 20
            &&& "mlp.gate_proj.weight"@[4] == 'g'
            &&& "mlp.down_proj.weight"@[4] == 'd'
            &&& "mlp.up_proj.weight"@.len() == 18
        }),
{
    reveal_strlit("self_attn.q_proj.weight");
    reveal_strlit("self_attn.k_proj.weight");
    reveal_strlit("self_attn.v_proj.weight");
    reveal_strlit("self_attn.o_proj.weight");
    reveal_strlit("self_attn.q_norm.weight");
    reveal_strlit("self_attn.k_norm.weight");
    reveal_strlit("input_layernorm.weight");
    reveal_strlit("post_attention_layernorm.weight");
    reveal_strlit("mlp.gate_proj.weight");
    reveal_strlit("mlp.up_proj.weight");
    reveal_strlit("mlp.down_proj.weight");
}

proof fn lemma_other_suffixes()
    ensures
        gguf_suffix("input_layernorm.weight"@) == Some("attn_norm.weight"@),
        gguf_suffix("post_attention_layernorm.weight"@) == Some("ffn_norm.weight"@),
        gguf_suffix("mlp.gate_proj.weight"@) == Some("ffn_gate.weight"@),
        gguf_suffix("mlp.up_proj.weight"@) == Some("ffn_up.weight"@),
        gguf_suffix("mlp.down_proj.weight"@) == Some("ffn_down.weight"@),
{
    lemma_suffixes();
}

/// A GGUF file holds the tensors of a layer under the names of that format: norms before the
/// attention and the feed-forward part, projections to and from the heads, the norms of query
/// and key heads, and gate, up and down projection.
pub proof fn law_gguf_layer_names(n: usize, has_output: bool)
    ensures
        ({
            let a = |t: Seq<char>| gguf_name(
                "model.layers."@ + decimal_text(n as nat) + "."@ + t,
                has_output,
            );
            let b = |t: Seq<char>| Ok::<Seq<char>, LoadError>(
                "blk."@ + decimal_text(n as nat) + "."@ + t,
            );
            &&& a("input_layernorm.weight"@) == b("attn_norm.weight"@)
            &&& a("post_attention_layernorm.weight"@) == b("ffn_norm.weight"@)
            &&& a("self_attn.q_proj.weight"@) == b("attn_q.weight"@)
            &&& a("self_attn.k_proj.weight"@) == b("attn_k.weight"@)
            &&& a("self_attn.v_proj.weight"@) == b("attn_v.weight"@)
            &&& a("self_attn.o_proj.weight"@) == b("attn_output.weight"@)
            &&& a("self_attn.q_norm.weight"@) == b("attn_q_norm.weight"@)
            &&& a("self_attn.k_norm.weight"@) == b("attn_k_norm.weight"@)
            &&& a("mlp.gate_proj.weight"@) == b("ffn_gate.weight"@)
            &&& a("mlp.up_proj.weight"@) == b("ffn_up.weight"@)
            &&& a("mlp.down_proj.weight"@) == b("ffn_down.weight"@)
        }),
{
    lemma_attention_suffixes();
    lemma_other_suffixes();
    lemma_layer_name(n, "input_layernorm.weight"@, "attn_norm.weight"@, has_output);
    lemma_layer_name(n, "post_attention_layernorm.weight"@, "ffn_norm.weight"@, has_output);
    lemma_layer_name(n, "self_attn.q_proj.weight"@, "attn_q.weight"@, has_output);
    lemma_layer_name(n, "self_attn.k_proj.weight"@, "attn_k.weight"@, has_output);
    lemma_layer_name(n, "self_attn.v_proj.weight"@, "attn_v.weight"@, has_output);
    lemma_layer_name(n, "self_attn.o_proj.weight"@, "attn_output.weight"@, has_output);
    lemma_layer_name(n, "self_attn.q_norm.weight"@, "attn_q_norm.weight"@, has_output);
    lemma_layer_name(n, "self_attn.k_norm.weight"@, "attn_k_norm.weight"@, has_output);
    lemma_layer_name(n, "mlp.gate_proj.weight"@, "ffn_gate.weight"@, has_output);
    lemma_layer_name(n, "mlp.up_proj.weight"@, "ffn_up.weight"@, has_output);
    lemma_layer_name(n, "mlp.down_proj.weight"@, "ffn_down.weight"@, has_output);
}

/// A GGUF file holds embedding, last norm and output head under the names of that format. A
/// file without an output head uses its embedding as one.
pub proof fn law_gguf_top_names()
    ensures
        forall|o: bool| #[trigger]
            gguf_name("model.embed_tokens.weight"@, o) == Ok::<Seq<char>, LoadError>(
                "token_embd.weight"@,
            ),
        forall|o: bool| #[trigger]
            gguf_name("model.norm.weight"@, o) == Ok::<Seq<char>, LoadError>("output_norm.weight"@),
        gguf_name("lm_head.weight"@, true) == Ok::<Seq<char>, LoadError>("output.weight"@),
        gguf_name("lm_head.weight"@, false) == Ok::<Seq<char>, LoadError>("token_embd.weight"@),
{
    reveal_strlit("model.embed_tokens.weight");
    reveal_strlit("model.norm.weight");
    reveal_strlit("lm_head.weight");
    assert("model.embed_tokens.weight"@.len() == 25);
    assert("model.norm.weight"@.len() == 17);
    assert("lm_head.weight"@.len() == 14);
}

/// Every tensor that is loaded has a place in a GGUF file: the one of that tensor.
pub proof fn law_tensors_are_where_they_belong(l: usize, t: LayerTensor, has_output: bool)
    ensures
        gguf_name((ModelTensor::Layer { layer: l, tensor: t }).name_text(), has_output) == Ok::<
            Seq<char>,
            LoadError,
        >(
            "blk."@ + decimal_text(l as nat) + "."@ + match t {
                LayerTensor::QProj => "attn_q.weight"@,
                LayerTensor::KProj => "attn_k.weight"@,
                LayerTensor::VProj => "attn_v.weight"@,
                LayerTensor::GateProj => "ffn_gate.weight"@,
                LayerTensor::UpProj => "ffn_up.weight"@,
                LayerTensor::InputNorm => "attn_norm.weight"@,
                LayerTensor::PostAttentionNorm => "ffn_norm.weight"@,
                LayerTensor::QNorm => "attn_q_norm.weight"@,
                LayerTensor::KNorm => "attn_k_norm.weight"@,
                LayerTensor::OProj => "attn_output.weight"@,
                LayerTensor::DownProj => "ffn_down.weight"@,
            },
        ),
        gguf_name(ModelTensor::Embedding.name_text(), has_output) == Ok::<Seq<char>, LoadError>(
            "token_embd.weight"@,
        ),
        gguf_name(ModelTensor::Norm.name_text(), has_output) == Ok::<Seq<char>, LoadError>(
            "output_norm.weight"@,
        ),
        gguf_name(ModelTensor::Head.name_text(), true) == Ok::<Seq<char>, LoadError>(
            "output.weight"@,
        ),
{
    law_gguf_layer_names(l, has_output);
    law_gguf_top_names();
}

/// A number that a GGUF file holds under a key.
pub open spec fn entry(c: ContentModel, key: Seq<char>, n: usize) -> bool {
    match lookup(c.metadata, key) {
        Some(ValueModel::U8(x)) => x == n,
        Some(ValueModel::U16(x)) => x == n,
        Some(ValueModel::U32(x)) => x == n,
        Some(ValueModel::U64(x)) => x == n,
        Some(ValueModel::Bool(x)) => n == if x {
            1usize
        } else {
            0
        },
        _ => false,
    }
}

/// A floating-point number that a GGUF file holds under a key.
pub open spec fn float_entry(c: ContentModel, key: Seq<char>, x: Float) -> bool {
    match lookup(c.metadata, key) {
        Some(ValueModel::F32(b)) => x == (Float::Single { bits: b }),
        Some(ValueModel::F64(b)) => x == (Float::Double { bits: b }),
        _ => false,
    }
}

/// Each setting of a model is what its GGUF file holds under the key for it. The rows of the
/// embedding are the vocabulary, and a file without an output head ties it to the embedding.
pub proof fn law_gguf_settings(c: ContentModel, cfg: Qwen3Config)
    requires
        gguf_config_spec(c) == Ok::<Qwen3Config, LoadError>(cfg),
    ensures
        lookup(c.metadata, "general.architecture"@) == Some(ValueModel::String("qwen3"@)),
        entry(c, "qwen3.embedding_length"@, cfg.hidden_size),
        entry(c, "qwen3.feed_forward_length"@, cfg.intermediate_size),
        entry(c, "qwen3.block_count"@, cfg.num_hidden_layers),
        entry(c, "qwen3.attention.head_count"@, cfg.num_attention_heads),
        entry(c, "qwen3.attention.head_count_kv"@, cfg.num_key_value_heads),
        entry(c, "qwen3.attention.key_length"@, cfg.head_dim),
        entry(c, "qwen3.context_length"@, cfg.max_position_embeddings),
        entry(c, "tokenizer.ggml.eos_token_id"@, cfg.eos_token_id as usize),
        float_entry(c, "qwen3.attention.layer_norm_rms_epsilon"@, cfg.rms_norm_eps),
        float_entry(c, "qwen3.rope.freq_base"@, cfg.rope_theta),
        lookup(c.tensor_infos, "token_embd.weight"@) matches Some(t) && t.shape.len() == 2
            && t.shape[0] == cfg.vocab_size,
        cfg.tie_word_embeddings == (lookup(c.tensor_infos, "output.weight"@) is None),
        !cfg.use_sliding_window,
{
}

/// Where the bytes of a tensor lie in the file at its offset after the head, they are what is
/// read of it.
pub proof fn law_tensor_bytes_are_read_back(
    c: ContentModel,
    file: Seq<u8>,
    name: Seq<char>,
    t: TensorModel,
    data: Seq<u8>,
)
    requires
        lookup(c.tensor_infos, name) == Some(t),
        t.byte_size() == Ok::<usize, GgufError>(data.len() as usize),
        data.len() <= usize::MAX,
        file.len() <= usize::MAX,
        lies(file, c.tensor_data_offset + t.offset, data),
    ensures
        tensor_range(c, file.len(), name) matches Ok((start, end)) && file.subrange(
            start as int,
            end as int,
        ) == data,
{
}

/// Bytes that a weight takes on the device in the form in which it goes there.
pub open spec fn uploaded_bytes(u: WeightUpload<'_>) -> nat {
    match u {
        WeightUpload::Half { tensor } => 2 * tensor.data@.len(),
        WeightUpload::Native { data, .. } => data@.len(),
        WeightUpload::Split { native, split, .. } => native@.len() + split.qs@.len() + 2
            * split.scales@.len(),
    }
}

/// The memory that is asked for before loading is what loading takes: a weight goes to the
/// device in as many bytes as were counted for its tensor.
pub proof fn law_uploads_take_what_is_counted(
    bytes: Seq<u8>,
    c: ContentModel,
    name: Seq<char>,
    u: WeightUpload<'_>,
)
    requires
        bytes.len() <= usize::MAX,
        upload_of(bytes, c, name, u),
    ensures
        located_gguf(bytes, c, name) matches Ok((t, _)) && (resident_of(t) matches Ok(n) ==> n
            == uploaded_bytes(u)),
{
    let (t, d) = located_gguf(bytes, c, name)->Ok_0;
    let stored = gguf_name(name, lookup(c.tensor_infos, "output.weight"@) is Some)->Ok_0;
    law_tensor_range(c, bytes.len(), stored);
    match u {
        WeightUpload::Split { native, split, .. } => {
            assert(native@.len() == split.qs@.len() + 2 * split.scales@.len());
        },
        WeightUpload::Half { tensor } => {
            assert(tensor.data@.len() == dims_product(t.shape)->0);
        },
        WeightUpload::Native { .. } => {},
    }
}

/// A quantized weight stays in the blocks of the file, and only those of Q8_0 are also split;
/// every other weight is unpacked, in the shape of its tensor.
pub proof fn law_blocks_go_as_they_are(
    bytes: Seq<u8>,
    c: ContentModel,
    name: Seq<char>,
    u: WeightUpload<'_>,
)
    requires
        upload_of(bytes, c, name, u),
    ensures
        ({
            let (t, d) = located_gguf(bytes, c, name)->Ok_0;
            &&& u is Split <==> t.dtype is Q8_0
            &&& u is Half <==> t.dtype is F16 || t.dtype is F32
            &&& u matches WeightUpload::Native { dtype, data, shape } ==> dtype == t.dtype && data@
                == d && shape@ == t.shape
            &&& u matches WeightUpload::Split { native, split, shape } ==> native@ == d && shape@
                == t.shape && split.rows == t.shape[0] && split.columns == t.shape[1]
            &&& u matches WeightUpload::Half { tensor } ==> tensor.shape@ == t.shape
        }),
{
}

/// The bytes of a model are those of its tensors together, whatever their order: what two
/// lists of tensors take adds up, and one tensor takes its own bytes.
pub proof fn law_weights_add_up(
    a: Seq<(Seq<char>, TensorModel)>,
    b: Seq<(Seq<char>, TensorModel)>,
    t: (Seq<char>, TensorModel),
)
    requires
        resident_total(a + b) is Ok,
    ensures
        resident_total(a) is Ok,
        resident_total(a + b)->Ok_0 == resident_total(a)->Ok_0 + (if b.len() == 0 {
            0int
        } else {
            resident_total(b)->Ok_0 as int
        }),
        resident_total(b) is Ok,
        resident_total(Seq::<(Seq<char>, TensorModel)>::empty()) == Ok::<usize, LoadError>(0),
        resident_total(seq![t]) == resident_of(t.1),
    decreases b.len(),
{
    let one = seq![t];
    assert(one.drop_last() =~= Seq::<(Seq<char>, TensorModel)>::empty());
    assert(one.last() == t);
    assert(resident_total(one.drop_last()) == Ok::<usize, LoadError>(0));
    if b.len() == 0 {
        assert(a + b =~= a);
        assert(b =~= Seq::<(Seq<char>, TensorModel)>::empty());
    } else {
        assert((a + b).drop_last() =~= a + b.drop_last());
        assert((a + b).last() == b.last());
        law_weights_add_up(a, b.drop_last(), t);
        if b.len() == 1 {
            assert(b.drop_last() =~= Seq::<(Seq<char>, TensorModel)>::empty());
        }
    }
}

/// A tensor of a shard takes two bytes per element on the device, however wide its elements
/// are in the file.
pub proof fn law_shards_take_what_is_counted(t: ShardModel)
    requires
        sized(t),
        !(t.dtype is Other),
    ensures
        shard_elements(t.dtype, t.data) is Ok,
        shard_elements(t.dtype, t.data)->Ok_0.len() == dims_product(t.shape)->0,
        resident_of_shard(t) matches Ok(n) ==> n == 2 * shard_elements(t.dtype, t.data)->Ok_0.len(),
{
    let (n, w) = (dims_product(t.shape)->0 as nat, t.dtype.width());
    assert((n * w) / w == n) by (nonlinear_arith)
        requires
            w > 0,
    ;
}

/// Half- and single-precision tensors read the same out of a shard and out of a GGUF file.
pub proof fn law_formats_agree(data: Seq<u8>, n: usize)
    requires
        data.len() <= usize::MAX,
    ensures
        data.len() == 2 * n ==> shard_elements(ShardType::F16, data)->Ok_0 == dequantize_half_spec(
            GgmlType::F16,
            data,
            n,
        )->Ok_0 && dequantize_half_spec(GgmlType::F16, data, n) is Ok && shard_elements(
            ShardType::F16,
            data,
        ) is Ok,
        data.len() == 4 * n ==> shard_elements(ShardType::F32, data)->Ok_0 == dequantize_half_spec(
            GgmlType::F32,
            data,
            n,
        )->Ok_0 && dequantize_half_spec(GgmlType::F32, data, n) is Ok && shard_elements(
            ShardType::F32,
            data,
        ) is Ok,
{
    if data.len() == 2 * n {
        assert(shard_elements(ShardType::F16, data)->Ok_0 =~= dequantize_half_spec(
            GgmlType::F16,
            data,
            n,
        )->Ok_0);
    }
    if data.len() == 4 * n {
        assert(shard_elements(ShardType::F32, data)->Ok_0 =~= dequantize_half_spec(
            GgmlType::F32,
            data,
            n,
        )->Ok_0);
    }
}

/// Elements of a shard are read back in their places: those of half precision keep their bits,
/// the others are rounded from what their bytes write, the low bytes first.
pub proof fn law_shard_elements_are_read_back(
    data: Seq<u8>,
    i: int,
    half: u16,
    single: u32,
    double: u64,
)
    requires
        0 <= i,
    ensures
        2 * i + 2 <= data.len() && lies(data, 2 * i, bytes16(half)) ==> shard_elements(
            ShardType::F16,
            data,
        )->Ok_0[i] == (HalfElement::Kept { bits: half }) && shard_elements(
            ShardType::BF16,
            data,
        )->Ok_0[i] == (HalfElement::Rounded { of: Element::Brain { bits: half } }),
        4 * i + 4 <= data.len() && lies(data, 4 * i, bytes32(single)) ==> shard_elements(
            ShardType::F32,
            data,
        )->Ok_0[i] == (HalfElement::Rounded { of: Element::Single { bits: single } }),
        8 * i + 8 <= data.len() && lies(data, 8 * i, bytes64(double)) ==> shard_elements(
            ShardType::F64,
            data,
        )->Ok_0[i] == (HalfElement::Rounded { of: Element::Double { bits: double } }),
{
    if 2 * i + 2 <= data.len() && lies(data, 2 * i, bytes16(half)) {
        let b = data.subrange(2 * i, 2 * i + 2);
        assert(b[0] == data[2 * i] && b[1] == data[2 * i + 1]);
    }
    if 4 * i + 4 <= data.len() && lies(data, 4 * i, bytes32(single)) {
        let b = data.subrange(4 * i, 4 * i + 4);
        assert(b[0] == data[4 * i] && b[1] == data[4 * i + 1]);
        assert(b[2] == data[4 * i + 2] && b[3] == data[4 * i + 3]);
    }
    if 8 * i + 8 <= data.len() && lies(data, 8 * i, bytes64(double)) {
        let b = data.subrange(8 * i, 8 * i + 8);
        assert(b[0] == data[8 * i] && b[1] == data[8 * i + 1]);
        assert(b[2] == data[8 * i + 2] && b[3] == data[8 * i + 3]);
        assert(b[4] == data[8 * i + 4] && b[5] == data[8 * i + 5]);
        assert(b[6] == data[8 * i + 6] && b[7] == data[8 * i + 7]);
    }
}

/// The shard files of an index are each named once, and all that it names.
pub proof fn law_shards_are_named_once(index: Seq<(Seq<char>, Seq<char>)>, shard: Seq<char>)
    ensures
        shard_names(index).no_duplicates(),
        shard_names(index).contains(shard) <==> exists|i: int|
            0 <= i < index.len() && (#[trigger] index[i]).1 == shard,
    decreases index.len(),
{
    if index.len() > 0 {
        let rest = index.drop_last();
        let before = shard_names(rest);
        let last = index.last().1;
        law_shards_are_named_once(rest, shard);
        assert(index[index.len() - 1] == index.last());
        assert forall|i: int| 0 <= i < rest.len() implies #[trigger] rest[i] == index[i] by {}
        if before.contains(shard) {
            let i = choose|i: int| 0 <= i < rest.len() && (#[trigger] rest[i]).1 == shard;
            assert(index[i].1 == shard);
        }
        if exists|i: int| 0 <= i < index.len() && (#[trigger] index[i]).1 == shard {
            let i = choose|i: int| 0 <= i < index.len() && (#[trigger] index[i]).1 == shard;
            if i < rest.len() {
                assert(rest[i].1 == shard);
            }
        }
        if !before.contains(last) {
            assert(before.push(last)[before.len() as int] == last);
            if before.contains(shard) {
                let k = choose|k: int| 0 <= k < before.len() && before[k] == shard;
                assert(before.push(last)[k] == shard);
            }
        }
    }
}

/// The bytes of a sharded model are those of its tensors together.
pub proof fn law_indexed_weights_add_up(
    index: Seq<(Seq<char>, Seq<char>)>,
    shards: Seq<(Seq<char>, Seq<u8>)>,
    name: Seq<char>,
    shard: Seq<char>,
)
    requires
        resident_index_total(index, shards) is Ok,
    ensures
        resident_index_total(index.push((name, shard)), shards) matches Ok(n) ==> (indexed_tensor(
            shards,
            name,
            shard,
        ) matches Ok(t) && (resident_of_shard(t) matches Ok(m) && n == resident_index_total(
            index,
            shards,
        )->Ok_0 + m)),
        indexed_tensor(shards, name, shard) matches Err(e) ==> resident_index_total(
            index.push((name, shard)),
            shards,
        ) == Err::<usize, LoadError>(e),
        resident_index_total(Seq::empty(), shards) == Ok::<usize, LoadError>(0),
{
    assert(index.push((name, shard)).drop_last() =~= index);
}

/// A weight that is found goes to the device, unless it is a Q8_0 tensor that does not split.
pub proof fn law_found_weights_are_uploaded(bytes: Seq<u8>, c: ContentModel, name: Seq<char>)
    ensures
        located_gguf(bytes, c, name) matches Err(e) ==> upload_error(bytes, c, name) == Some(e),
        located_gguf(bytes, c, name) matches Ok((t, d)) ==> (t.dtype is Q4K || t.dtype is Q5K
            || t.dtype is Q6K ==> upload_error(bytes, c, name) is None) && (t.dtype is Q8_0 ==> (
        upload_error(bytes, c, name) is None <==> q8_0_check(t.shape, d.len()) is Ok)),
{
}

/// A GGUF file is known by its extension in any case, and by nothing else.
pub proof fn law_gguf_files_have_their_extension(e: Seq<char>)
    ensures
        !gguf_extension(None),
        gguf_extension(Some("gguf"@)),
        gguf_extension(Some("GGUF"@)),
        gguf_extension(Some(e)) <==> lower_all(e) == "gguf"@,
{
    reveal_strlit("gguf");
    reveal_strlit("GGUF");
    assert(lower_all("gguf"@) =~= "gguf"@);
    assert(lower_all("GGUF"@) =~= "gguf"@);
}

/// The seven projections of every layer count for the scratch of a prefill, and its norms do
/// not: they are the tensors that may stay in quantized blocks.
pub proof fn law_projections_are_the_matrices(l: usize, t: LayerTensor)
    ensures
        gguf_name((ModelTensor::Layer { layer: l, tensor: t }).name_text(), true) matches Ok(name)
            && (projection_name(name) <==> t.matrix()),
        t.matrix() <==> !(t is InputNorm || t is PostAttentionNorm || t is QNorm || t is KNorm),
{
    law_tensors_are_where_they_belong(l, t, true);
    let kind = match t {
        LayerTensor::QProj => "attn_q.weight"@,
        LayerTensor::KProj => "attn_k.weight"@,
        LayerTensor::VProj => "attn_v.weight"@,
        LayerTensor::GateProj => "ffn_gate.weight"@,
        LayerTensor::UpProj => "ffn_up.weight"@,
        LayerTensor::InputNorm => "attn_norm.weight"@,
        LayerTensor::PostAttentionNorm => "ffn_norm.weight"@,
        LayerTensor::QNorm => "attn_q_norm.weight"@,
        LayerTensor::KNorm => "attn_k_norm.weight"@,
        LayerTensor::OProj => "attn_output.weight"@,
        LayerTensor::DownProj => "ffn_down.weight"@,
    };
    lemma_projection_name(l, kind);
    lemma_norms_are_no_projection();
}

proof fn lemma_projection_name(l: usize, kind: Seq<char>)
    ensures
        projection_name("blk."@ + decimal_text(l as nat) + "."@ + kind) == projection_kind(kind),
{
    reveal_strlit("blk.");
    reveal_strlit("blk");
    reveal_strlit(".");
    let d = decimal_text(l as nat);
    let name = "blk."@ + d + "."@ + kind;
    lemma_decimal_text_value(l as nat);
    assert(name[0] == 'b' && name[1] == 'l' && name[2] == 'k' && name[3] == '.');
    lemma_next_dot(name, 0, 3);
    let second = 4 + d.len() as int;
    assert(name[second] == '.');
    assert forall|i: int| 4 <= i < second implies name[i] != '.' by {
        assert(name[i] == d[i - 4]);
        assert(is_digit(d[i - 4]));
    }
    lemma_next_dot(name, 4, second);
    assert(name.subrange(0, 3) =~= "blk"@);
    assert(name.subrange(second + 1, name.len() as int) =~= kind);
}

proof fn lemma_norms_are_no_projection()
    ensures
        !projection_kind("attn_norm.weight"@),
        !projection_kind("ffn_norm.weight"@),
        !projection_kind("attn_q_norm.weight"@),
        !projection_kind("attn_k_norm.weight"@),
{
    reveal_strlit("attn_norm.weight");
    reveal_strlit("ffn_norm.weight");
    reveal_strlit("attn_q_norm.weight");
    reveal_strlit("attn_k_norm.weight");
    reveal_strlit("attn_q.weight");
    reveal_strlit("attn_k.weight");
    reveal_strlit("attn_v.weight");
    reveal_strlit("attn_output.weight");
    reveal_strlit("ffn_gate.weight");
    reveal_strlit("ffn_up.weight");
    reveal_strlit("ffn_down.weight");
    assert("attn_norm.weight"@.len() == 16 && "ffn_norm.weight"@.len() == 15);
    assert("attn_q_norm.weight"@.len() == 18 && "attn_k_norm.weight"@.len() == 18);
    assert("attn_q.weight"@.len() == 13 && "attn_k.weight"@.len() == 13);
    assert("attn_v.weight"@.len() == 13 && "attn_output.weight"@.len() == 18);
    assert("ffn_gate.weight"@.len() == 15 && "ffn_up.weight"@.len() == 13);
    assert("ffn_down.weight"@.len() == 15);
    assert("ffn_norm.weight"@[4] == 'n' && "ffn_gate.weight"@[4] == 'g');
    assert("ffn_down.weight"@[4] == 'd' && "attn_output.weight"@[5] == 'o');
    assert("attn_q_norm.weight"@[5] == 'q' && "attn_k_norm.weight"@[5] == 'k');
}

/// A file of the architecture with a number under every key gives the configuration that it
/// describes, where that passes its check; another architecture does not.
pub proof fn law_gguf_settings_are_read(c: ContentModel, cfg: Qwen3Config, other: Seq<char>)
    requires
        cfg.valid(),
        !cfg.use_sliding_window,
        entry(c, "qwen3.embedding_length"@, cfg.hidden_size),
        entry(c, "qwen3.feed_forward_length"@, cfg.intermediate_size),
        entry(c, "qwen3.block_count"@, cfg.num_hidden_layers),
        entry(c, "qwen3.attention.head_count"@, cfg.num_attention_heads),
        entry(c, "qwen3.attention.head_count_kv"@, cfg.num_key_value_heads),
        entry(c, "qwen3.attention.key_length"@, cfg.head_dim),
        entry(c, "qwen3.context_length"@, cfg.max_position_embeddings),
        entry(c, "tokenizer.ggml.eos_token_id"@, cfg.eos_token_id as usize),
        float_entry(c, "qwen3.attention.layer_norm_rms_epsilon"@, cfg.rms_norm_eps),
        float_entry(c, "qwen3.rope.freq_base"@, cfg.rope_theta),
        lookup(c.tensor_infos, "token_embd.weight"@) matches Some(t) && t.shape.len() == 2
            && t.shape[0] == cfg.vocab_size,
        cfg.tie_word_embeddings == (lookup(c.tensor_infos, "output.weight"@) is None),
    ensures
        lookup(c.metadata, "general.architecture"@) == Some(ValueModel::String("qwen3"@))
            ==> gguf_config_spec(c) == Ok::<Qwen3Config, LoadError>(cfg),
        other != "qwen3"@ && lookup(c.metadata, "general.architecture"@) == Some(
            ValueModel::String(other),
        ) ==> gguf_config_spec(c) == Err::<Qwen3Config, LoadError>(LoadError::Architecture),
{
    law_valid_config(cfg);
}

/// An entry is an unsigned number where it is one, of any width, or a truth value; nothing else
/// is.
pub proof fn law_unsigned_entries(a: u8, b: u16, x: u32, y: u64, flag: bool, i: i32, t: Seq<char>)
    ensures
        model_unsigned(ValueModel::U8(a)) == Some(a as u64),
        model_unsigned(ValueModel::U16(b)) == Some(b as u64),
        model_unsigned(ValueModel::U32(x)) == Some(x as u64),
        model_unsigned(ValueModel::U64(y)) == Some(y),
        model_unsigned(ValueModel::Bool(flag)) == Some(
            if flag {
                1u64
            } else {
                0
            },
        ),
        model_unsigned(ValueModel::I32(i)) is None,
        model_unsigned(ValueModel::F32(x)) is None,
        model_unsigned(ValueModel::String(t)) is None,
{
}

/// A tensor that is found is unpacked, whole and in its shape.
pub proof fn law_found_tensors_are_unpacked(bytes: Seq<u8>, c: ContentModel, name: Seq<char>)
    requires
        bytes.len() <= usize::MAX,
    ensures
        located_gguf(bytes, c, name) matches Ok((t, d)) ==> (host_gguf(bytes, c, name) matches Ok(
            (elements, shape),
        ) && shape == t.shape && Some(elements.len() as usize) == dims_product(t.shape)
            && dequantize_half_spec(t.dtype, d, dims_product(t.shape)->0) == Ok::<
            Seq<HalfElement>,
            DequantError,
        >(elements)),
        located_gguf(bytes, c, name) matches Err(e) ==> host_gguf(bytes, c, name) == Err::<
            (Seq<HalfElement>, Seq<usize>),
            LoadError,
        >(e),
{
    if let Ok((t, d)) = located_gguf(bytes, c, name) {
        let stored = gguf_name(name, lookup(c.tensor_infos, "output.weight"@) is Some)->Ok_0;
        law_tensor_range(c, bytes.len(), stored);
    }
}

/// A tensor of a sharded model is read from the shard that the index names for it.
pub proof fn law_indexed_tensors_are_read(
    index: Seq<(Seq<char>, Seq<char>)>,
    shards: Seq<(Seq<char>, Seq<u8>)>,
    name: Seq<char>,
    shard: Seq<char>,
    bytes: Seq<u8>,
    t: ShardModel,
)
    requires
        !(t.dtype is Other),
    ensures
        lookup(index, name) is None ==> host_sharded(index, shards, name) == Err::<
            (Seq<HalfElement>, Seq<usize>),
            LoadError,
        >(LoadError::NotInIndex),
        lookup(index, name) == Some(shard) && lookup(shards, shard) is None ==> host_sharded(
            index,
            shards,
            name,
        ) == Err::<(Seq<HalfElement>, Seq<usize>), LoadError>(LoadError::NoShard),
        lookup(index, name) == Some(shard) && lookup(shards, shard) == Some(bytes) && shard_tensor(
            bytes,
            name,
        ) == Ok::<ShardModel, ShardError>(t) ==> host_sharded(index, shards, name) == Ok::<
            (Seq<HalfElement>, Seq<usize>),
            LoadError,
        >((shard_elements(t.dtype, t.data)->Ok_0, t.shape)),
{
}

} // verus!
