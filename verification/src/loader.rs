//! Where weights come from: a GGUF file, or safetensors shards with an index.
use crate::config::{ConfigError, Qwen3Config, SafetensorsIndex};
use crate::dequant::{
    dequantize_half_spec, dequantize_to_f16, le16, q8_0_element, read_u16, signed, signed_byte,
    DequantError, Element, GgmlType, HalfElement,
};
use crate::gguf::{
    dims_product, product_of_dims, tensor_range, Content, ContentModel, Float, GgufError, GgufFile,
    TensorInfo, TensorModel, ValueModel,
};
use crate::names::{lookup, NameMap};
use crate::quant_scratch::{copy_dims, largest_projection, prefill_dequant_scratch_plan};
use crate::shard::{
    cast_to_f16, read_shard_tensor, safetensor_dtype_supported_for_f16, shard_elements, shard_tensor,
    ShardError, ShardModel, ShardTensor,
};
use crate::text::{
    chars, find_dot, from_chars, has_prefix, is_text, is_text_any_case, lower_all, next_dot,
    parse_usize, parse_usize_spec, same, strip_prefix,
};
use vstd::prelude::*;
use vstd::string::StringExecFns;

verus! {

/// Why weights, or the configuration of a model, cannot be loaded.
#[derive(Clone, Copy, Debug, PartialEq, Eq, Structural)]
#[allow(inconsistent_fields)]
pub enum LoadError {
    Gguf { error: GgufError },
    Shard { error: ShardError },
    Dequant { error: DequantError },
    /// The configuration is none that a model can have.
    Config { error: ConfigError },
    /// The index names no shard for the tensor.
    NotInIndex,
    /// The shard that the index names is not there.
    NoShard,
    /// The model is of another architecture.
    Architecture,
    /// The embedding table is not a matrix.
    EmbeddingRank { rank: usize },
    UnsupportedType { dtype: GgmlType },
    ElementOverflow,
    ByteOverflow,
    TotalOverflow,
    /// No tensor of the engine has this name.
    UnknownName,
    /// The layer index of a tensor name is not a number.
    LayerIndex,
    /// No tensor of a layer has this name.
    UnknownSuffix,
    /// A quantized tensor is not a matrix.
    Rank { rank: usize },
    /// The columns of a Q8_0 matrix are not a whole number of blocks.
    PartialBlock { columns: usize },
    ByteLength { got: usize, expected: usize },
}

impl LoadError {
    /// The error in words.
    pub fn message(&self) -> (r: &'static str)
        ensures
            match *self {
                LoadError::Gguf { error } => r@ == error.text(),
                LoadError::Shard { error } => r@ == error.text(),
                LoadError::Dequant { error } => r@ == error.text(),
                LoadError::Config { error } => r@ == error.text(),
                LoadError::NotInIndex => r@ == "tensor not found in index"@,
                LoadError::NoShard => r@ == "missing shard"@,
                LoadError::Architecture => r@
                    == "unsupported GGUF architecture; this engine only supports qwen3"@,
                LoadError::EmbeddingRank { .. } => r@ == "token_embd.weight must be rank-2"@,
                LoadError::UnsupportedType { .. } => r@ == "unsupported ggml type"@,
                LoadError::ElementOverflow => r@ == "tensor element count overflows usize"@,
                LoadError::ByteOverflow => r@ == "tensor resident byte size overflows usize"@,
                LoadError::TotalOverflow => r@ == "resident weight byte total overflows usize"@,
                LoadError::UnknownName => r@ == "unrecognized engine tensor name"@,
                LoadError::LayerIndex => r@ == "invalid layer index in tensor name"@,
                LoadError::UnknownSuffix => r@ == "unrecognized engine tensor suffix"@,
                LoadError::Rank { .. } => r@ == "Q8_0 tensor must be rank-2"@,
                LoadError::PartialBlock { .. } => r@ == "Q8_0 tensor K must be divisible by 32"@,
                LoadError::ByteLength { .. } => r@ == "Q8_0 tensor byte length mismatch"@,
            },
    {
        match *self {
            LoadError::Gguf { error } => error.message(),
            LoadError::Shard { error } => error.message(),
            LoadError::Dequant { error } => error.message(),
            LoadError::Config { error } => error.message(),
            LoadError::NotInIndex => "tensor not found in index",
            LoadError::NoShard => "missing shard",
            LoadError::Architecture => "unsupported GGUF architecture; this engine only supports qwen3",
            LoadError::EmbeddingRank { .. } => "token_embd.weight must be rank-2",
            LoadError::UnsupportedType { .. } => "unsupported ggml type",
            LoadError::ElementOverflow => "tensor element count overflows usize",
            LoadError::ByteOverflow => "tensor resident byte size overflows usize",
            LoadError::TotalOverflow => "resident weight byte total overflows usize",
            LoadError::UnknownName => "unrecognized engine tensor name",
            LoadError::LayerIndex => "invalid layer index in tensor name",
            LoadError::UnknownSuffix => "unrecognized engine tensor suffix",
            LoadError::Rank { .. } => "Q8_0 tensor must be rank-2",
            LoadError::PartialBlock { .. } => "Q8_0 tensor K must be divisible by 32",
            LoadError::ByteLength { .. } => "Q8_0 tensor byte length mismatch",
        }
    }
}

/// The name in a GGUF file of the layer tensor that the engine calls `suffix`.
pub open spec fn gguf_suffix(suffix: Seq<char>) -> Option<Seq<char>> {
    if suffix == "input_layernorm.weight"@ {
        Some("attn_norm.weight"@)
    } else if suffix == "post_attention_layernorm.weight"@ {
        Some("ffn_norm.weight"@)
    } else if suffix == "self_attn.q_proj.weight"@ {
        Some("attn_q.weight"@)
    } else if suffix == "self_attn.k_proj.weight"@ {
        Some("attn_k.weight"@)
    } else if suffix == "self_attn.v_proj.weight"@ {
        Some("attn_v.weight"@)
    } else if suffix == "self_attn.o_proj.weight"@ {
        Some("attn_output.weight"@)
    } else if suffix == "self_attn.q_norm.weight"@ {
        Some("attn_q_norm.weight"@)
    } else if suffix == "self_attn.k_norm.weight"@ {
        Some("attn_k_norm.weight"@)
    } else if suffix == "mlp.gate_proj.weight"@ {
        Some("ffn_gate.weight"@)
    } else if suffix == "mlp.up_proj.weight"@ {
        Some("ffn_up.weight"@)
    } else if suffix == "mlp.down_proj.weight"@ {
        Some("ffn_down.weight"@)
    } else {
        None
    }
}

/// The name in a GGUF file of the layer tensor that the engine calls `suffix`.
fn layer_suffix(suffix: &[char]) -> (r: Option<&'static str>)
    ensures
        match r {
            Some(t) => gguf_suffix(suffix@) == Some(t@),
            None => gguf_suffix(suffix@) is None,
        },
{
    if is_text(suffix, "input_layernorm.weight") {
        Some("attn_norm.weight")
    } else if is_text(suffix, "post_attention_layernorm.weight") {
        Some("ffn_norm.weight")
    } else if is_text(suffix, "self_attn.q_proj.weight") {
        Some("attn_q.weight")
    } else if is_text(suffix, "self_attn.k_proj.weight") {
        Some("attn_k.weight")
    } else if is_text(suffix, "self_attn.v_proj.weight") {
        Some("attn_v.weight")
    } else if is_text(suffix, "self_attn.o_proj.weight") {
        Some("attn_output.weight")
    } else if is_text(suffix, "self_attn.q_norm.weight") {
        Some("attn_q_norm.weight")
    } else if is_text(suffix, "self_attn.k_norm.weight") {
        Some("attn_k_norm.weight")
    } else if is_text(suffix, "mlp.gate_proj.weight") {
        Some("ffn_gate.weight")
    } else if is_text(suffix, "mlp.up_proj.weight") {
        Some("ffn_up.weight")
    } else if is_text(suffix, "mlp.down_proj.weight") {
        Some("ffn_down.weight")
    } else {
        None
    }
}

/// The name in a GGUF file of the tensor that the engine calls `name`; `has_output`
/// says whether the file has an output matrix of its own.
pub open spec fn gguf_name(name: Seq<char>, has_output: bool) -> Result<Seq<char>, LoadError> {
    let prefix = "model.layers."@;
    let rest = name.subrange(prefix.len() as int, name.len() as int);
    let dot = next_dot(rest, 0);
    let index = rest.subrange(0, dot);
    let suffix = rest.subrange(dot + 1, rest.len() as int);
    if name == "model.embed_tokens.weight"@ {
        Ok("token_embd.weight"@)
    } else if name == "model.norm.weight"@ {
        Ok("output_norm.weight"@)
    } else if name == "lm_head.weight"@ {
        if has_output {
            Ok("output.weight"@)
        } else {
            Ok("token_embd.weight"@)
        }
    } else if !has_prefix(name, prefix) || dot >= rest.len() {
        Err(LoadError::UnknownName)
    } else if parse_usize_spec(index) is None {
        Err(LoadError::LayerIndex)
    } else {
        match gguf_suffix(suffix) {
            Some(t) => Ok("blk."@ + index + "."@ + t),
            None => Err(LoadError::UnknownSuffix),
        }
    }
}

/// The name in a GGUF file of the tensor that the engine calls `engine_name`. A model
/// without an output matrix uses its embedding table instead.
pub fn map_engine_tensor_name(engine_name: &str, content: &Content) -> (r: Result<
    String,
    LoadError,
>)
    ensures
        match r {
            Ok(s) => gguf_name(
                engine_name@,
                lookup(content@.tensor_infos, "output.weight"@) is Some,
            ) == Ok::<Seq<char>, LoadError>(s@),
            Err(e) => gguf_name(
                engine_name@,
                lookup(content@.tensor_infos, "output.weight"@) is Some,
            ) == Err::<Seq<char>, LoadError>(e),
        },
{
    if same(engine_name, "model.embed_tokens.weight") {
        return Ok("token_embd.weight".to_owned());
    }
    if same(engine_name, "model.norm.weight") {
        return Ok("output_norm.weight".to_owned());
    }
    if same(engine_name, "lm_head.weight") {
        if content.has_tensor("output.weight") {
            return Ok("output.weight".to_owned());
        }
        return Ok("token_embd.weight".to_owned());
    }
    let name: Vec<char> = chars(engine_name);
    let rest: &[char] = match strip_prefix(name.as_slice(), "model.layers.") {
        Some(r) => r,
        None => {
            return Err(LoadError::UnknownName);
        },
    };
    let dot: usize = find_dot(rest, 0);
    if dot >= rest.len() {
        return Err(LoadError::UnknownName);
    }
    let index: &[char] = vstd::slice::slice_subrange(rest, 0, dot);
    if parse_usize(index).is_none() {
        return Err(LoadError::LayerIndex);
    }
    match layer_suffix(vstd::slice::slice_subrange(rest, dot + 1, rest.len())) {
        Some(suffix) => {
            let mut out: String = "blk.".to_owned();
            let index_text: String = from_chars(index);
            out.append(index_text.as_str());
            out.append(".");
            out.append(suffix);
            Ok(out)
        },
        None => Err(LoadError::UnknownSuffix),
    }
}

/// Whether a file extension is that of a GGUF file, in any case of letters.
pub open spec fn gguf_extension(extension: Option<Seq<char>>) -> bool {
    match extension {
        Some(e) => lower_all(e) == lower_all("gguf"@),
        None => false,
    }
}

/// Whether a file extension is that of a GGUF file.
pub fn is_gguf_extension(extension: Option<&str>) -> (r: bool)
    ensures
        r == gguf_extension(match extension {
            Some(e) => Some(e@),
            None => None,
        }),
{
    match extension {
        Some(e) => {
            let c: Vec<char> = chars(e);
            is_text_any_case(c.as_slice(), "gguf")
        },
        None => false,
    }
}

/// The unsigned number under `key`.
pub open spec fn required_u32(c: ContentModel, key: Seq<char>) -> Result<u32, LoadError> {
    match lookup(c.metadata, key) {
        None => Err(LoadError::Gguf { error: GgufError::NoMetadata }),
        Some(v) => match model_unsigned(v) {
            None => Err(LoadError::Gguf { error: GgufError::NotUnsigned }),
            Some(n) => if n > u32::MAX {
                Err(LoadError::Gguf { error: GgufError::NotU32 { value: n } })
            } else {
                Ok(n as u32)
            },
        },
    }
}

/// A metadata value as an unsigned number.
pub open spec fn model_unsigned(v: ValueModel) -> Option<u64> {
    match v {
        ValueModel::U8(x) => Some(x as u64),
        ValueModel::U16(x) => Some(x as u64),
        ValueModel::U32(x) => Some(x as u64),
        ValueModel::U64(x) => Some(x),
        ValueModel::Bool(x) => Some(
            if x {
                1
            } else {
                0
            },
        ),
        _ => None,
    }
}

/// The floating-point number under `key`.
pub open spec fn required_float(c: ContentModel, key: Seq<char>) -> Result<Float, LoadError> {
    match lookup(c.metadata, key) {
        None => Err(LoadError::Gguf { error: GgufError::NoMetadata }),
        Some(ValueModel::F32(bits)) => Ok(Float::Single { bits }),
        Some(ValueModel::F64(bits)) => Ok(Float::Double { bits }),
        Some(_) => Err(LoadError::Gguf { error: GgufError::NotFloat }),
    }
}

fn read_required_u32(content: &Content, key: &str) -> (r: Result<u32, LoadError>)
    ensures
        r == required_u32(content@, key@),
{
    match content.metadata_required(key) {
        Err(error) => Err(LoadError::Gguf { error }),
        Ok(v) => match v.to_u32() {
            Err(error) => Err(LoadError::Gguf { error }),
            Ok(n) => Ok(n),
        },
    }
}

fn read_required_float(content: &Content, key: &str) -> (r: Result<Float, LoadError>)
    ensures
        r == required_float(content@, key@),
{
    match content.metadata_required(key) {
        Err(error) => Err(LoadError::Gguf { error }),
        Ok(v) => match v.to_f32() {
            Err(error) => Err(LoadError::Gguf { error }),
            Ok(x) => Ok(x),
        },
    }
}

/// What the architecture entry says: an error where it is missing, no text, or not
/// `qwen3`.
pub open spec fn architecture_check(c: ContentModel) -> Result<(), LoadError> {
    match lookup(c.metadata, "general.architecture"@) {
        None => Err(LoadError::Gguf { error: GgufError::NoMetadata }),
        Some(ValueModel::String(s)) => if s == "qwen3"@ {
            Ok(())
        } else {
            Err(LoadError::Architecture)
        },
        Some(_) => Err(LoadError::Gguf { error: GgufError::NotString }),
    }
}

/// The rows of the embedding table: the size of the vocabulary.
pub open spec fn vocabulary(c: ContentModel) -> Result<usize, LoadError> {
    match lookup(c.tensor_infos, "token_embd.weight"@) {
        None => Err(LoadError::Gguf { error: GgufError::NoTensor }),
        Some(t) => if t.shape.len() != 2 {
            Err(LoadError::EmbeddingRank { rank: t.shape.len() as usize })
        } else {
            Ok(t.shape[0])
        },
    }
}

/// A configuration that passes its check, or why it does not.
pub open spec fn checked(cfg: Qwen3Config) -> Result<Qwen3Config, LoadError> {
    match cfg.check() {
        Ok(_) => Ok(cfg),
        Err(error) => Err(LoadError::Config { error }),
    }
}

/// The configuration that the metadata of a GGUF file describes.
pub open spec fn gguf_config_spec(c: ContentModel) -> Result<Qwen3Config, LoadError> {
    match architecture_check(c) {
        Err(e) => Err(e),
        Ok(_) => match vocabulary(c) {
            Err(e) => Err(e),
            Ok(vocab) => match (
                required_u32(c, "qwen3.embedding_length"@),
                required_u32(c, "qwen3.feed_forward_length"@),
                required_u32(c, "qwen3.block_count"@),
                required_u32(c, "qwen3.attention.head_count"@),
                required_u32(c, "qwen3.attention.head_count_kv"@),
                required_u32(c, "qwen3.attention.key_length"@),
                required_float(c, "qwen3.attention.layer_norm_rms_epsilon"@),
                required_float(c, "qwen3.rope.freq_base"@),
                required_u32(c, "qwen3.context_length"@),
                required_u32(c, "tokenizer.ggml.eos_token_id"@),
            ) {
                (Err(e), _, _, _, _, _, _, _, _, _) => Err(e),
                (_, Err(e), _, _, _, _, _, _, _, _) => Err(e),
                (_, _, Err(e), _, _, _, _, _, _, _) => Err(e),
                (_, _, _, Err(e), _, _, _, _, _, _) => Err(e),
                (_, _, _, _, Err(e), _, _, _, _, _) => Err(e),
                (_, _, _, _, _, Err(e), _, _, _, _) => Err(e),
                (_, _, _, _, _, _, Err(e), _, _, _) => Err(e),
                (_, _, _, _, _, _, _, Err(e), _, _) => Err(e),
                (_, _, _, _, _, _, _, _, Err(e), _) => Err(e),
                (_, _, _, _, _, _, _, _, _, Err(e)) => Err(e),
                (
                    Ok(hidden),
                    Ok(inter),
                    Ok(layers),
                    Ok(heads),
                    Ok(kv_heads),
                    Ok(head_dim),
                    Ok(eps),
                    Ok(theta),
                    Ok(positions),
                    Ok(eos),
                ) => checked(
                    Qwen3Config {
                        vocab_size: vocab,
                        hidden_size: hidden as usize,
                        intermediate_size: inter as usize,
                        num_hidden_layers: layers as usize,
                        num_attention_heads: heads as usize,
                        num_key_value_heads: kv_heads as usize,
                        head_dim: head_dim as usize,
                        rms_norm_eps: eps,
                        rope_theta: theta,
                        max_position_embeddings: positions as usize,
                        tie_word_embeddings: lookup(c.tensor_infos, "output.weight"@) is None,
                        use_sliding_window: false,
                        eos_token_id: eos,
                    },
                ),
            },
        },
    }
}

/// The configuration that the metadata of a GGUF file describes. It comes from a file, so it
/// is checked.
pub fn config_from_gguf(content: &Content) -> (r: Result<Qwen3Config, LoadError>)
    ensures
        r == gguf_config_spec(content@),
        r matches Ok(cfg) ==> cfg.valid(),
{
    match content.metadata_required("general.architecture") {
        Err(error) => {
            return Err(LoadError::Gguf { error });
        },
        Ok(v) => match v.to_string() {
            Err(error) => {
                return Err(LoadError::Gguf { error });
            },
            Ok(arch) => {
                if !same(arch, "qwen3") {
                    return Err(LoadError::Architecture);
                }
            },
        },
    }
    let vocab_size: usize = match content.tensor_info("token_embd.weight") {
        Err(error) => {
            return Err(LoadError::Gguf { error });
        },
        Ok(t) => {
            if t.shape.len() != 2 {
                return Err(LoadError::EmbeddingRank { rank: t.shape.len() });
            }
            t.shape[0]
        },
    };
    let hidden: u32 = read_required_u32(content, "qwen3.embedding_length")?;
    let inter: u32 = read_required_u32(content, "qwen3.feed_forward_length")?;
    let layers: u32 = read_required_u32(content, "qwen3.block_count")?;
    let heads: u32 = read_required_u32(content, "qwen3.attention.head_count")?;
    let kv_heads: u32 = read_required_u32(content, "qwen3.attention.head_count_kv")?;
    let head_dim: u32 = read_required_u32(content, "qwen3.attention.key_length")?;
    let eps: Float = read_required_float(content, "qwen3.attention.layer_norm_rms_epsilon")?;
    let theta: Float = read_required_float(content, "qwen3.rope.freq_base")?;
    let positions: u32 = read_required_u32(content, "qwen3.context_length")?;
    let tie_word_embeddings: bool = !content.has_tensor("output.weight");
    let eos_token_id: u32 = read_required_u32(content, "tokenizer.ggml.eos_token_id")?;
    let cfg = Qwen3Config {
        vocab_size,
        hidden_size: hidden as usize,
        intermediate_size: inter as usize,
        num_hidden_layers: layers as usize,
        num_attention_heads: heads as usize,
        num_key_value_heads: kv_heads as usize,
        head_dim: head_dim as usize,
        rms_norm_eps: eps,
        rope_theta: theta,
        max_position_embeddings: positions as usize,
        tie_word_embeddings,
        use_sliding_window: false,
        eos_token_id,
    };
    match cfg.validate() {
        Ok(_) => Ok(cfg),
        Err(error) => Err(LoadError::Config { error }),
    }
}

/// Bytes that a tensor of a GGUF file takes on the device: unquantized ones are kept
/// in half precision, Q8_0 ones both as they are and split, the others as they are.
pub open spec fn resident_of(t: TensorModel) -> Result<usize, LoadError> {
    if !t.dtype.supported() {
        Err(LoadError::UnsupportedType { dtype: t.dtype })
    } else if t.dtype is F16 || t.dtype is F32 {
        match dims_product(t.shape) {
            None => Err(LoadError::Gguf { error: GgufError::ElementOverflow }),
            Some(n) => doubled(n),
        }
    } else {
        match t.byte_size() {
            Err(error) => Err(LoadError::Gguf { error }),
            Ok(n) => if t.dtype is Q8_0 {
                doubled(n)
            } else {
                Ok(n)
            },
        }
    }
}

/// Twice `n`, where it fits.
pub open spec fn doubled(n: usize) -> Result<usize, LoadError> {
    if 2 * n > usize::MAX {
        Err(LoadError::ByteOverflow)
    } else {
        Ok((2 * n) as usize)
    }
}

/// Twice `n`, where it fits.
fn double(n: usize) -> (r: Result<usize, LoadError>)
    ensures
        r == doubled(n),
{
    match n.checked_mul(2) {
        Some(b) => Ok(b),
        None => Err(LoadError::ByteOverflow),
    }
}

/// Bytes that a tensor of a GGUF file takes on the device.
pub fn resident_tensor_bytes(info: &TensorInfo) -> (r: Result<usize, LoadError>)
    ensures
        r == resident_of(info@),
{
    match info.dtype {
        GgmlType::F16 | GgmlType::F32 => match info.elem_count() {
            Ok(n) => double(n),
            Err(error) => Err(LoadError::Gguf { error }),
        },
        GgmlType::Q8_0 => match info.size_in_bytes() {
            Ok(n) => double(n),
            Err(error) => Err(LoadError::Gguf { error }),
        },
        GgmlType::Q4K | GgmlType::Q5K | GgmlType::Q6K => match info.size_in_bytes() {
            Ok(n) => Ok(n),
            Err(error) => Err(LoadError::Gguf { error }),
        },
        _ => Err(LoadError::UnsupportedType { dtype: info.dtype }),
    }
}

/// `total` and one more part, where the sum fits.
pub open spec fn add_part(total: usize, part: Result<usize, LoadError>) -> Result<
    usize,
    LoadError,
> {
    match part {
        Err(e) => Err(e),
        Ok(n) => if total + n > usize::MAX {
            Err(LoadError::TotalOverflow)
        } else {
            Ok((total + n) as usize)
        },
    }
}

/// Bytes that the tensors take on the device together.
pub open spec fn resident_total(s: Seq<(Seq<char>, TensorModel)>) -> Result<usize, LoadError>
    decreases s.len(),
{
    if s.len() == 0 {
        Ok(0)
    } else {
        match resident_total(s.drop_last()) {
            Err(e) => Err(e),
            Ok(total) => add_part(total, resident_of(s.last().1)),
        }
    }
}

proof fn lemma_resident_error(s: Seq<(Seq<char>, TensorModel)>, k: int)
    requires
        0 <= k <= s.len(),
        resident_total(s.subrange(0, k)) is Err,
    ensures
        resident_total(s) == resident_total(s.subrange(0, k)),
    decreases s.len() - k,
{
    if k < s.len() {
        assert(s.subrange(0, k + 1).drop_last() =~= s.subrange(0, k));
        lemma_resident_error(s, k + 1);
    } else {
        assert(s.subrange(0, k) =~= s);
    }
}

/// Bytes that the tensors of a GGUF file take on the device together.
pub fn resident_weight_bytes_gguf(content: &Content) -> (r: Result<usize, LoadError>)
    ensures
        r == resident_total(content@.tensor_infos),
{
    let ghost all = content@.tensor_infos;
    let count: usize = content.tensor_infos.len();
    let mut total: usize = 0;
    let mut i: usize = 0;
    assert(all.subrange(0, 0) =~= Seq::empty());
    while i < count
        invariant
            i <= count,
            count == all.len(),
            all == content@.tensor_infos,
            resident_total(all.subrange(0, i as int)) == Ok::<usize, LoadError>(total),
        decreases count - i,
    {
        assert(all.subrange(0, i + 1).drop_last() =~= all.subrange(0, i as int));
        match resident_tensor_bytes(content.tensor_infos.value_at(i)) {
            Ok(bytes) => match total.checked_add(bytes) {
                Some(t) => {
                    total = t;
                },
                None => {
                    proof {
                        lemma_resident_error(all, i + 1);
                    }
                    return Err(LoadError::TotalOverflow);
                },
            },
            Err(e) => {
                proof {
                    lemma_resident_error(all, i + 1);
                }
                return Err(e);
            },
        }
        i = i + 1;
    }
    assert(all.subrange(0, all.len() as int) =~= all);
    Ok(total)
}

/// Bytes that a tensor of a shard takes on the device, in half precision.
pub open spec fn resident_of_shard(t: ShardModel) -> Result<usize, LoadError> {
    if t.dtype is Other {
        Err(LoadError::Shard { error: ShardError::Unsupported })
    } else {
        match dims_product(t.shape) {
            None => Err(LoadError::ElementOverflow),
            Some(n) => doubled(n),
        }
    }
}

/// Bytes that a tensor of a shard takes on the device, in half precision.
pub fn resident_shard_bytes(t: &ShardTensor<'_>) -> (r: Result<usize, LoadError>)
    ensures
        r == resident_of_shard(t@),
{
    if !safetensor_dtype_supported_for_f16(t.dtype) {
        return Err(LoadError::Shard { error: ShardError::Unsupported });
    }
    match product_of_dims(t.shape.as_slice()) {
        Some(n) => double(n),
        None => Err(LoadError::ElementOverflow),
    }
}

/// The tensor `name` that stands in the shard `shard`.
pub open spec fn indexed_tensor(
    shards: Seq<(Seq<char>, Seq<u8>)>,
    name: Seq<char>,
    shard: Seq<char>,
) -> Result<ShardModel, LoadError> {
    match lookup(shards, shard) {
        None => Err(LoadError::NoShard),
        Some(bytes) => match shard_tensor(bytes, name) {
            Ok(t) => Ok(t),
            Err(error) => Err(LoadError::Shard { error }),
        },
    }
}

/// Reads the tensor `name` from the shard `shard`.
fn read_indexed<'a>(shards: &NameMap<&'a [u8]>, name: &str, shard: &str) -> (r: Result<
    ShardTensor<'a>,
    LoadError,
>)
    ensures
        match r {
            Ok(t) => indexed_tensor(shards@, name@, shard@) == Ok::<ShardModel, LoadError>(t@),
            Err(e) => indexed_tensor(shards@, name@, shard@) == Err::<ShardModel, LoadError>(e),
        },
{
    match shards.get(shard) {
        None => Err(LoadError::NoShard),
        Some(bytes) => match read_shard_tensor(*bytes, name) {
            Ok(t) => Ok(t),
            Err(error) => Err(LoadError::Shard { error }),
        },
    }
}

/// Bytes that the tensors of an index take on the device together.
pub open spec fn resident_index_total(
    index: Seq<(Seq<char>, Seq<char>)>,
    shards: Seq<(Seq<char>, Seq<u8>)>,
) -> Result<usize, LoadError>
    decreases index.len(),
{
    if index.len() == 0 {
        Ok(0)
    } else {
        match resident_index_total(index.drop_last(), shards) {
            Err(e) => Err(e),
            Ok(total) => match indexed_tensor(shards, index.last().0, index.last().1) {
                Err(e) => Err(e),
                Ok(t) => add_part(total, resident_of_shard(t)),
            },
        }
    }
}

proof fn lemma_resident_index_error(
    index: Seq<(Seq<char>, Seq<char>)>,
    shards: Seq<(Seq<char>, Seq<u8>)>,
    k: int,
)
    requires
        0 <= k <= index.len(),
        resident_index_total(index.subrange(0, k), shards) is Err,
    ensures
        resident_index_total(index, shards) == resident_index_total(index.subrange(0, k), shards),
    decreases index.len() - k,
{
    if k < index.len() {
        assert(index.subrange(0, k + 1).drop_last() =~= index.subrange(0, k));
        lemma_resident_index_error(index, shards, k + 1);
    } else {
        assert(index.subrange(0, k) =~= index);
    }
}

/// Bytes that the tensors of an index take on the device together.
pub fn resident_weight_bytes_safetensors(
    weight_map: &NameMap<String>,
    shards: &NameMap<&[u8]>,
) -> (r: Result<usize, LoadError>)
    ensures
        r == resident_index_total(weight_map@, shards@),
{
    let ghost all = weight_map@;
    let count: usize = weight_map.len();
    let mut total: usize = 0;
    let mut i: usize = 0;
    assert(all.subrange(0, 0) =~= Seq::empty());
    while i < count
        invariant
            i <= count,
            count == all.len(),
            all == weight_map@,
            resident_index_total(all.subrange(0, i as int), shards@) == Ok::<usize, LoadError>(
                total,
            ),
        decreases count - i,
    {
        assert(all.subrange(0, i + 1).drop_last() =~= all.subrange(0, i as int));
        let bytes: usize = match read_indexed(
            shards,
            weight_map.name_at(i),
            weight_map.value_at(i).as_str(),
        ) {
            Ok(t) => match resident_shard_bytes(&t) {
                Ok(b) => b,
                Err(e) => {
                    proof {
                        lemma_resident_index_error(all, shards@, i + 1);
                    }
                    return Err(e);
                },
            },
            Err(e) => {
                proof {
                    lemma_resident_index_error(all, shards@, i + 1);
                }
                return Err(e);
            },
        };
        match total.checked_add(bytes) {
            Some(t) => {
                total = t;
            },
            None => {
                proof {
                    lemma_resident_index_error(all, shards@, i + 1);
                }
                return Err(LoadError::TotalOverflow);
            },
        }
        i = i + 1;
    }
    assert(all.subrange(0, all.len() as int) =~= all);
    Ok(total)
}

/// The different shard names of an index, in the order in which they first occur.
pub open spec fn shard_names(index: Seq<(Seq<char>, Seq<char>)>) -> Seq<Seq<char>>
    decreases index.len(),
{
    if index.len() == 0 {
        Seq::empty()
    } else {
        let before = shard_names(index.drop_last());
        if before.contains(index.last().1) {
            before
        } else {
            before.push(index.last().1)
        }
    }
}

/// What the strings hold.
pub open spec fn string_views(v: Seq<String>) -> Seq<Seq<char>> {
    v.map_values(|s: String| s@)
}

/// Whether one of the strings is `name`.
fn holds_name(v: &Vec<String>, name: &str) -> (r: bool)
    ensures
        r == string_views(v@).contains(name@),
{
    let mut i: usize = 0;
    while i < v.len()
        invariant
            i <= v@.len(),
            forall|k: int| 0 <= k < i ==> string_views(v@)[k] != name@,
        decreases v@.len() - i,
    {
        if same(v[i].as_str(), name) {
            assert(string_views(v@)[i as int] == name@);
            return true;
        }
        assert(string_views(v@)[i as int] != name@);
        i = i + 1;
    }
    false
}

/// The shard files that an index names, each once.
pub fn shard_files(index: &SafetensorsIndex) -> (r: Vec<String>)
    ensures
        string_views(r@) == shard_names(index.weight_map@),
{
    let ghost all = index.weight_map@;
    let count: usize = index.weight_map.len();
    let mut out: Vec<String> = Vec::new();
    let mut i: usize = 0;
    assert(all.subrange(0, 0) =~= Seq::empty());
    assert(string_views(out@) =~= Seq::empty());
    while i < count
        invariant
            i <= count,
            count == all.len(),
            all == index.weight_map@,
            string_views(out@) == shard_names(all.subrange(0, i as int)),
        decreases count - i,
    {
        assert(all.subrange(0, i + 1).drop_last() =~= all.subrange(0, i as int));
        let shard: &String = index.weight_map.value_at(i);
        let ghost before = string_views(out@);
        if !holds_name(&out, shard.as_str()) {
            out.push(shard.clone());
            assert(string_views(out@) =~= before.push(shard@));
        }
        i = i + 1;
    }
    assert(all.subrange(0, all.len() as int) =~= all);
    out
}

/// A Q8_0 matrix with its integers and its scales apart.
#[derive(Debug)]
pub struct Q8Split {
    pub qs: Vec<i8>,
    /// Half-precision scales, by their bits.
    pub scales: Vec<u16>,
    pub rows: usize,
    pub columns: usize,
}

/// Whether a Q8_0 matrix of this shape has `len` bytes, and the first reason against it.
pub open spec fn q8_0_check(shape: Seq<usize>, len: nat) -> Result<(), LoadError> {
    if shape.len() != 2 {
        Err(LoadError::Rank { rank: shape.len() as usize })
    } else if shape[1] % 32 != 0 {
        Err(LoadError::PartialBlock { columns: shape[1] })
    } else if shape[0] * (shape[1] / 32) * 34 > usize::MAX {
        Err(LoadError::ByteOverflow)
    } else if len != shape[0] * (shape[1] / 32) * 34 {
        Err(
            LoadError::ByteLength {
                got: len as usize,
                expected: (shape[0] * (shape[1] / 32) * 34) as usize,
            },
        )
    } else {
        Ok(())
    }
}

/// Whether `s` is the Q8_0 matrix `data` of this shape, split.
pub open spec fn split_of(shape: Seq<usize>, data: Seq<u8>, s: Q8Split) -> bool {
    &&& s.rows == shape[0]
    &&& s.columns == shape[1]
    &&& s.scales@.len() == shape[0] * (shape[1] / 32)
    &&& s.qs@.len() == 32 * s.scales@.len()
    &&& forall|b: int| 0 <= b < s.scales@.len() ==> #[trigger] s.scales@[b] == le16(data, 34 * b)
    &&& forall|i: int|
        0 <= i < s.qs@.len() ==> #[trigger] s.qs@[i] == signed(data[i / 32 * 34 + 2 + i % 32])
}

/// Splits a Q8_0 matrix into its integers and its scales.
pub fn split_q8_0(shape: &[usize], data: &[u8]) -> (r: Result<Q8Split, LoadError>)
    ensures
        match r {
            Ok(s) => q8_0_check(shape@, data@.len()) is Ok && split_of(shape@, data@, s),
            Err(e) => q8_0_check(shape@, data@.len()) == Err::<(), LoadError>(e),
        },
{
    if shape.len() != 2 {
        return Err(LoadError::Rank { rank: shape.len() });
    }
    let rows: usize = shape[0];
    let columns: usize = shape[1];
    if columns % 32 != 0 {
        return Err(LoadError::PartialBlock { columns });
    }
    let per_row: usize = columns / 32;
    let expected: usize = match rows.checked_mul(per_row) {
        Some(blocks) => match blocks.checked_mul(34) {
            Some(bytes) => bytes,
            None => {
                return Err(LoadError::ByteOverflow);
            },
        },
        None => {
            return Err(LoadError::ByteOverflow);
        },
    };
    if data.len() != expected {
        return Err(LoadError::ByteLength { got: data.len(), expected });
    }
    let blocks: usize = rows * per_row;
    let mut qs: Vec<i8> = Vec::new();
    let mut scales: Vec<u16> = Vec::new();
    let mut b: usize = 0;
    while b < blocks
        invariant
            b <= blocks,
            data.len() == 34 * blocks,
            scales@.len() == b,
            qs@.len() == 32 * b,
            forall|k: int| 0 <= k < b ==> #[trigger] scales@[k] == le16(data@, 34 * k),
            forall|i: int|
                0 <= i < qs@.len() ==> #[trigger] qs@[i] == signed(data@[i / 32 * 34 + 2 + i % 32]),
        decreases blocks - b,
    {
        let base: usize = 34 * b;
        scales.push(read_u16(data, base));
        let mut j: usize = 0;
        while j < 32
            invariant
                j <= 32,
                b < blocks,
                base == 34 * b,
                data.len() == 34 * blocks,
                qs@.len() == 32 * b + j,
                forall|i: int|
                    0 <= i < qs@.len() ==> #[trigger] qs@[i] == signed(
                        data@[i / 32 * 34 + 2 + i % 32],
                    ),
            decreases 32 - j,
        {
            qs.push(signed_byte(data[base + 2 + j]));
            j = j + 1;
        }
        b = b + 1;
    }
    Ok(Q8Split { qs, scales, rows, columns })
}

/// Splitting loses nothing: the element `i` of the matrix is the integer `i` with the
/// scale of its block, and the two parts take as many bytes as the matrix did.
pub proof fn law_q8_split_keeps_elements(shape: Seq<usize>, data: Seq<u8>, s: Q8Split, i: int)
    requires
        q8_0_check(shape, data.len()) is Ok,
        split_of(shape, data, s),
        0 <= i < s.qs@.len(),
    ensures
        q8_0_element(data, i) == (Element::Scaled { d: s.scales@[i / 32], q: s.qs@[i] }),
        s.qs@.len() + 2 * s.scales@.len() == data.len(),
{
    assert(s.scales@[i / 32] == le16(data, 34 * (i / 32)));
    assert(s.qs@[i] == signed(data[i / 32 * 34 + 2 + i % 32]));
}

/// A tensor on the host, in half precision.
#[derive(Debug)]
pub struct HostTensor {
    pub data: Vec<HalfElement>,
    pub shape: Vec<usize>,
}

/// The elements and the shape of the tensor that the engine calls `name`, out of the
/// GGUF file `bytes` with the head `c`.
pub open spec fn host_gguf(bytes: Seq<u8>, c: ContentModel, name: Seq<char>) -> Result<
    (Seq<HalfElement>, Seq<usize>),
    LoadError,
> {
    match located_gguf(bytes, c, name) {
        Err(e) => Err(e),
        Ok((t, data)) => match dims_product(t.shape) {
            None => Err(LoadError::Gguf { error: GgufError::ElementOverflow }),
            Some(n) => match dequantize_half_spec(t.dtype, data, n) {
                Err(error) => Err(LoadError::Dequant { error }),
                Ok(elements) => Ok((elements, t.shape)),
            },
        },
    }
}

/// The description and the bytes of the tensor that the engine calls `name`.
pub open spec fn located_gguf(bytes: Seq<u8>, c: ContentModel, name: Seq<char>) -> Result<
    (TensorModel, Seq<u8>),
    LoadError,
> {
    match gguf_name(name, lookup(c.tensor_infos, "output.weight"@) is Some) {
        Err(e) => Err(e),
        Ok(stored) => match tensor_range(c, bytes.len(), stored) {
            Err(error) => Err(LoadError::Gguf { error }),
            Ok((start, end)) => {
                let t = lookup(c.tensor_infos, stored)->0;
                if !t.dtype.supported() {
                    Err(LoadError::UnsupportedType { dtype: t.dtype })
                } else {
                    Ok((t, bytes.subrange(start as int, end as int)))
                }
            },
        },
    }
}

/// The elements and the shape of the tensor `name`, out of shards with an index.
pub open spec fn host_sharded(
    index: Seq<(Seq<char>, Seq<char>)>,
    shards: Seq<(Seq<char>, Seq<u8>)>,
    name: Seq<char>,
) -> Result<(Seq<HalfElement>, Seq<usize>), LoadError> {
    match lookup(index, name) {
        None => Err(LoadError::NotInIndex),
        Some(shard) => match indexed_tensor(shards, name, shard) {
            Err(e) => Err(e),
            Ok(t) => match shard_elements(t.dtype, t.data) {
                Err(error) => Err(LoadError::Shard { error }),
                Ok(elements) => Ok((elements, t.shape)),
            },
        },
    }
}

/// Finds the tensor that the engine calls `engine_name`.
fn locate_gguf<'b, 'a>(file: &'b GgufFile<'a>, engine_name: &str) -> (r: Result<
    (&'b TensorInfo, &'a [u8]),
    LoadError,
>)
    ensures
        match r {
            Ok((info, data)) => located_gguf(file.bytes@, file.content@, engine_name@) == Ok::<
                (TensorModel, Seq<u8>),
                LoadError,
            >((info@, data@)),
            Err(e) => located_gguf(file.bytes@, file.content@, engine_name@) == Err::<
                (TensorModel, Seq<u8>),
                LoadError,
            >(e),
        },
{
    let name: String = map_engine_tensor_name(engine_name, &file.content)?;
    match file.tensor_data(name.as_str()) {
        Err(error) => Err(LoadError::Gguf { error }),
        Ok((info, data)) => {
            if !info.dtype.is_supported_for_phase1() {
                return Err(LoadError::UnsupportedType { dtype: info.dtype });
            }
            Ok((info, data))
        },
    }
}

/// The tensor that the engine calls `engine_name`, unpacked.
pub fn load_host_f16_gguf(file: &GgufFile<'_>, engine_name: &str) -> (r: Result<
    HostTensor,
    LoadError,
>)
    ensures
        match r {
            Ok(h) => host_gguf(file.bytes@, file.content@, engine_name@) == Ok::<
                (Seq<HalfElement>, Seq<usize>),
                LoadError,
            >((h.data@, h.shape@)),
            Err(e) => host_gguf(file.bytes@, file.content@, engine_name@) == Err::<
                (Seq<HalfElement>, Seq<usize>),
                LoadError,
            >(e),
        },
{
    let (info, bytes) = locate_gguf(file, engine_name)?;
    let elem_count: usize = match info.elem_count() {
        Ok(n) => n,
        Err(error) => {
            return Err(LoadError::Gguf { error });
        },
    };
    match dequantize_to_f16(info.dtype, bytes, elem_count) {
        Ok(data) => Ok(HostTensor { data, shape: copy_dims(info.shape.as_slice()) }),
        Err(error) => Err(LoadError::Dequant { error }),
    }
}

/// A weight as it goes to the device.
#[derive(Debug)]
pub enum WeightUpload<'a> {
    /// In half precision.
    Half { tensor: HostTensor },
    /// Blocks as the file holds them.
    Native { dtype: GgmlType, data: &'a [u8], shape: Vec<usize> },
    /// Q8_0: the blocks as the file holds them, and the same split.
    Split { native: &'a [u8], split: Q8Split, shape: Vec<usize> },
}

/// Whether `u` is the weight that the engine calls `name`, out of the GGUF file
/// `bytes` with the head `c`: Q8_0 blocks both as they are and split, other quantized
/// blocks as they are, everything else unpacked.
pub open spec fn upload_of(bytes: Seq<u8>, c: ContentModel, name: Seq<char>, u: WeightUpload<'_>) -> bool {
    match located_gguf(bytes, c, name) {
        Err(_) => false,
        Ok((t, d)) => match u {
            WeightUpload::Half { tensor } => {
                &&& t.dtype is F16 || t.dtype is F32
                &&& host_gguf(bytes, c, name) == Ok::<(Seq<HalfElement>, Seq<usize>), LoadError>(
                    (tensor.data@, tensor.shape@),
                )
            },
            WeightUpload::Native { dtype, data, shape } => {
                &&& t.dtype is Q4K || t.dtype is Q5K || t.dtype is Q6K
                &&& dtype == t.dtype
                &&& data@ == d
                &&& shape@ == t.shape
            },
            WeightUpload::Split { native, split, shape } => {
                &&& t.dtype is Q8_0
                &&& q8_0_check(t.shape, d.len()) is Ok
                &&& native@ == d
                &&& shape@ == t.shape
                &&& split_of(t.shape, d, split)
            },
        },
    }
}

/// Why the weight that the engine calls `name` cannot go to the device.
pub open spec fn upload_error(bytes: Seq<u8>, c: ContentModel, name: Seq<char>) -> Option<
    LoadError,
> {
    match located_gguf(bytes, c, name) {
        Err(e) => Some(e),
        Ok((t, d)) => if t.dtype is Q8_0 {
            match q8_0_check(t.shape, d.len()) {
                Err(e) => Some(e),
                Ok(_) => None,
            }
        } else if t.dtype is F16 || t.dtype is F32 {
            match host_gguf(bytes, c, name) {
                Err(e) => Some(e),
                Ok(_) => None,
            }
        } else {
            None
        },
    }
}

/// Decides how the tensor that the engine calls `engine_name` goes to the device.
pub fn load_device_weight_gguf<'a>(file: &GgufFile<'a>, engine_name: &str) -> (r: Result<
    WeightUpload<'a>,
    LoadError,
>)
    ensures
        match r {
            Ok(u) => upload_of(file.bytes@, file.content@, engine_name@, u),
            Err(e) => upload_error(file.bytes@, file.content@, engine_name@) == Some(e),
        },
        r is Ok <==> upload_error(file.bytes@, file.content@, engine_name@) is None,
{
    let (info, bytes) = locate_gguf(file, engine_name)?;
    match info.dtype {
        GgmlType::Q8_0 => {
            let split: Q8Split = split_q8_0(info.shape.as_slice(), bytes)?;
            Ok(
                WeightUpload::Split {
                    native: bytes,
                    split,
                    shape: copy_dims(info.shape.as_slice()),
                },
            )
        },
        GgmlType::Q4K | GgmlType::Q5K | GgmlType::Q6K => Ok(
            WeightUpload::Native {
                dtype: info.dtype,
                data: bytes,
                shape: copy_dims(info.shape.as_slice()),
            },
        ),
        _ => {
            let tensor: HostTensor = load_host_f16_gguf(file, engine_name)?;
            Ok(WeightUpload::Half { tensor })
        },
    }
}

/// Where the weights of a model come from.
pub enum WeightLoader<'a> {
    /// A GGUF file and the configuration that it describes.
    Gguf { file: GgufFile<'a>, config: Qwen3Config },
    /// Safetensors shards and the index over them.
    Sharded { weight_map: NameMap<String>, shards: NameMap<&'a [u8]> },
}

impl<'a> WeightLoader<'a> {
    /// A loader over the GGUF file that `bytes` holds.
    pub fn from_gguf(bytes: &'a [u8]) -> (r: Result<WeightLoader<'a>, LoadError>)
        ensures
            match r {
                Ok(l) => l matches WeightLoader::Gguf { file, config } && file.bytes == bytes
                    && crate::gguf::rd_content(bytes@) == Ok::<ContentModel, GgufError>(
                    file.content@,
                ) && gguf_config_spec(file.content@) == Ok::<Qwen3Config, LoadError>(config)
                    && config.valid(),
                Err(e) => match crate::gguf::rd_content(bytes@) {
                    Err(error) => e == (LoadError::Gguf { error }),
                    Ok(c) => gguf_config_spec(c) == Err::<Qwen3Config, LoadError>(e),
                },
            },
    {
        match GgufFile::open(bytes) {
            Err(error) => Err(LoadError::Gguf { error }),
            Ok(file) => {
                let config: Qwen3Config = config_from_gguf(&file.content)?;
                Ok(WeightLoader::Gguf { file, config })
            },
        }
    }

    /// Whether the weights come from a GGUF file.
    pub fn is_gguf(&self) -> (r: bool)
        ensures
            r == (self is Gguf),
    {
        match self {
            WeightLoader::Gguf { .. } => true,
            WeightLoader::Sharded { .. } => false,
        }
    }

    /// The configuration that a GGUF file describes.
    pub fn gguf_config(&self) -> (r: Option<Qwen3Config>)
        ensures
            r == (match *self {
                WeightLoader::Gguf { config, .. } => Some(config),
                WeightLoader::Sharded { .. } => None,
            }),
    {
        match self {
            WeightLoader::Gguf { config, .. } => Some(*config),
            WeightLoader::Sharded { .. } => None,
        }
    }

    /// What loading the tensor `name` to the host gives.
    pub open spec fn host(&self, name: Seq<char>) -> Result<
        (Seq<HalfElement>, Seq<usize>),
        LoadError,
    > {
        match *self {
            WeightLoader::Gguf { file, .. } => host_gguf(file.bytes@, file.content@, name),
            WeightLoader::Sharded { weight_map, shards } => host_sharded(
                weight_map@,
                shards@,
                name,
            ),
        }
    }

    /// Loads the tensor `name` to the host.
    pub fn load_host_f16(&self, name: &str) -> (r: Result<HostTensor, LoadError>)
        ensures
            match r {
                Ok(h) => self.host(name@) == Ok::<(Seq<HalfElement>, Seq<usize>), LoadError>(
                    (h.data@, h.shape@),
                ),
                Err(e) => self.host(name@) == Err::<(Seq<HalfElement>, Seq<usize>), LoadError>(e),
            },
    {
        match self {
            WeightLoader::Gguf { file, .. } => load_host_f16_gguf(file, name),
            WeightLoader::Sharded { weight_map, shards } => match weight_map.get(name) {
                None => Err(LoadError::NotInIndex),
                Some(shard) => {
                    let t: ShardTensor<'_> = read_indexed(shards, name, shard.as_str())?;
                    match cast_to_f16(t.dtype, t.data) {
                        Ok(data) => Ok(HostTensor { data, shape: t.shape }),
                        Err(error) => Err(LoadError::Shard { error }),
                    }
                },
            },
        }
    }

    /// Decides how the weight `name` goes to the device: as the GGUF file asks for, or
    /// in half precision.
    pub fn load_device_weight(&self, name: &str) -> (r: Result<WeightUpload<'a>, LoadError>)
        ensures
            match *self {
                WeightLoader::Gguf { file, .. } => match r {
                    Ok(u) => upload_of(file.bytes@, file.content@, name@, u) && upload_error(
                        file.bytes@,
                        file.content@,
                        name@,
                    ) is None,
                    Err(e) => upload_error(file.bytes@, file.content@, name@) == Some(e),
                },
                WeightLoader::Sharded { .. } => match r {
                    Ok(WeightUpload::Half { tensor }) => self.host(name@) == Ok::<
                        (Seq<HalfElement>, Seq<usize>),
                        LoadError,
                    >((tensor.data@, tensor.shape@)),
                    Ok(_) => false,
                    Err(e) => self.host(name@) == Err::<
                        (Seq<HalfElement>, Seq<usize>),
                        LoadError,
                    >(e),
                },
            },
    {
        match self {
            WeightLoader::Gguf { file, .. } => load_device_weight_gguf(file, name),
            WeightLoader::Sharded { .. } => {
                let tensor: HostTensor = self.load_host_f16(name)?;
                Ok(WeightUpload::Half { tensor })
            },
        }
    }

    /// Bytes that the weights take on the device: in half precision, but for the
    /// quantized matrices of a GGUF file, which stay in blocks.
    pub fn resident_weight_bytes(&self) -> (r: Result<usize, LoadError>)
        ensures
            r == (match *self {
                WeightLoader::Gguf { file, .. } => resident_total(file.content@.tensor_infos),
                WeightLoader::Sharded { weight_map, shards } => resident_index_total(
                    weight_map@,
                    shards@,
                ),
            }),
    {
        match self {
            WeightLoader::Gguf { file, .. } => resident_weight_bytes_gguf(&file.content),
            WeightLoader::Sharded { weight_map, shards } => resident_weight_bytes_safetensors(
                weight_map,
                shards,
            ),
        }
    }

    /// What `prefill_dequant_scratch_bytes` gives.
    pub open spec fn scratch_bytes(&self) -> int {
        match *self {
            WeightLoader::Gguf { file, .. } => match largest_projection(
                file.content@.tensor_infos,
            ) {
                Ok(Some((_, n))) => if 2 * n > usize::MAX {
                    0
                } else {
                    2 * n
                },
                _ => 0int,
            },
            WeightLoader::Sharded { .. } => 0,
        }
    }

    /// Bytes of the scratch buffer that prefill needs for quantized matrices; 0 where
    /// it needs none.
    pub fn prefill_dequant_scratch_bytes(&self) -> (r: usize)
        ensures
            r == self.scratch_bytes(),
    {
        match self {
            WeightLoader::Gguf { file, .. } => match prefill_dequant_scratch_plan(&file.content) {
                Ok(plan) => plan.bytes,
                Err(_) => 0,
            },
            WeightLoader::Sharded { .. } => 0,
        }
    }
}

} // verus!
