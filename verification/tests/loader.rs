use grout::config::{ConfigError, SafetensorsIndex, SizeField};
use grout::dequant::{Element, GgmlType, HalfElement};
use grout::engine::{run_vram_preflight, EngineLoadError, VramNeed, VRAM_SLACK_BYTES};
use grout::gguf::{Float, GgufError};
use grout::loader::{
    is_gguf_extension, map_engine_tensor_name, shard_files, split_q8_0, LoadError, WeightLoader,
    WeightUpload,
};
use grout::names::NameMap;
use grout::shard::{read_shard_tensor, ShardError, ShardType};
use safetensors::tensor::TensorView;
use safetensors::{serialize, Dtype};

struct Tensor {
    name: &'static str,
    dims: Vec<u64>,
    dtype: u32,
    bytes: Vec<u8>,
}

fn key(b: &mut Vec<u8>, key: &str) {
    b.extend_from_slice(&(key.len() as u64).to_le_bytes());
    b.extend_from_slice(key.as_bytes());
}

fn model(tensors: &[Tensor], arch: &str) -> Vec<u8> {
    let mut b = Vec::new();
    b.extend_from_slice(b"GGUF");
    b.extend_from_slice(&3u32.to_le_bytes());
    b.extend_from_slice(&(tensors.len() as u64).to_le_bytes());
    b.extend_from_slice(&11u64.to_le_bytes());
    key(&mut b, "general.architecture");
    b.extend_from_slice(&8u32.to_le_bytes());
    key(&mut b, arch);
    for (k, v) in [
        ("qwen3.embedding_length", 64u32),
        ("qwen3.feed_forward_length", 128),
        ("qwen3.block_count", 1),
        ("qwen3.attention.head_count", 4),
        ("qwen3.attention.head_count_kv", 2),
        ("qwen3.attention.key_length", 128),
        ("qwen3.context_length", 4096),
        ("tokenizer.ggml.eos_token_id", 7),
    ] {
        key(&mut b, k);
        b.extend_from_slice(&4u32.to_le_bytes());
        b.extend_from_slice(&v.to_le_bytes());
    }
    for (k, v) in [
        ("qwen3.attention.layer_norm_rms_epsilon", 1e-6f32),
        ("qwen3.rope.freq_base", 1e6),
    ] {
        key(&mut b, k);
        b.extend_from_slice(&6u32.to_le_bytes());
        b.extend_from_slice(&v.to_le_bytes());
    }
    let mut data: Vec<u8> = Vec::new();
    for t in tensors {
        key(&mut b, t.name);
        b.extend_from_slice(&(t.dims.len() as u32).to_le_bytes());
        for d in &t.dims {
            b.extend_from_slice(&d.to_le_bytes());
        }
        b.extend_from_slice(&t.dtype.to_le_bytes());
        b.extend_from_slice(&(data.len() as u64).to_le_bytes());
        data.extend_from_slice(&t.bytes);
        data.resize(data.len().div_ceil(32) * 32, 0);
    }
    b.resize(b.len().div_ceil(32) * 32, 0);
    b.extend_from_slice(&data);
    b
}

fn embedding() -> Tensor {
    Tensor {
        name: "token_embd.weight",
        dims: vec![2, 3],
        dtype: 1,
        bytes: (0..12).collect(),
    }
}

fn q8_0() -> Tensor {
    let mut bytes = vec![0x00, 0x3c];
    bytes.extend(1..33u8);
    bytes.extend([0x00, 0x40]);
    bytes.extend(101..133u8);
    Tensor {
        name: "blk.0.attn_q.weight",
        dims: vec![32, 2],
        dtype: 8,
        bytes,
    }
}

#[test]
fn gguf_metadata_gives_the_configuration() {
    let b = model(&[embedding()], "qwen3");
    let l = WeightLoader::from_gguf(&b).unwrap();
    assert!(l.is_gguf());
    let c = l.gguf_config().unwrap();
    assert_eq!(c.vocab_size, 3);
    assert_eq!(c.hidden_size, 64);
    assert_eq!(c.intermediate_size, 128);
    assert_eq!(c.num_attention_heads, 4);
    assert_eq!(c.num_key_value_heads, 2);
    assert_eq!(c.max_position_embeddings, 4096);
    assert_eq!(c.eos_token_id, 7);
    assert!(c.tie_word_embeddings);
    assert!(!c.use_sliding_window);
    assert_eq!(
        c.rope_theta,
        Float::Single {
            bits: 1e6f32.to_bits()
        }
    );
}

/// The file with the four bytes after the type of a metadata entry replaced.
fn with_value(mut b: Vec<u8>, key: &str, value: [u8; 4]) -> Vec<u8> {
    let at = b
        .windows(key.len())
        .position(|w| w == key.as_bytes())
        .unwrap()
        + key.len()
        + 4;
    b[at..at + 4].copy_from_slice(&value);
    b
}

#[test]
fn gguf_metadata_out_of_range_is_refused() {
    let refused = |key, value| match WeightLoader::from_gguf(&with_value(
        model(&[embedding()], "qwen3"),
        key,
        value,
    )) {
        Err(LoadError::Config { error }) => error,
        _ => panic!("{key} is taken"),
    };
    assert_eq!(
        refused("qwen3.attention.head_count_kv", [0; 4]),
        ConfigError::Range {
            field: SizeField::NumKeyValueHeads,
            value: 0,
            max: 1 << 12
        }
    );
    assert_eq!(
        refused("qwen3.attention.head_count_kv", [3, 0, 0, 0]),
        ConfigError::HeadGrouping {
            heads: 4,
            kv_heads: 3
        }
    );
    assert_eq!(
        refused("qwen3.attention.key_length", [127, 0, 0, 0]),
        ConfigError::OddHeadDim { head_dim: 127 }
    );
    assert_eq!(
        refused(
            "qwen3.attention.layer_norm_rms_epsilon",
            f32::NAN.to_le_bytes()
        ),
        ConfigError::Epsilon
    );
    assert_eq!(
        refused("qwen3.rope.freq_base", 0f32.to_le_bytes()),
        ConfigError::Theta
    );
}

#[test]
fn other_architectures_are_refused() {
    let b = model(&[embedding()], "llama");
    assert!(matches!(
        WeightLoader::from_gguf(&b),
        Err(LoadError::Architecture)
    ));
    let b = model(&[q8_0()], "qwen3");
    assert!(matches!(
        WeightLoader::from_gguf(&b),
        Err(LoadError::Gguf {
            error: GgufError::NoTensor
        })
    ));
}

#[test]
fn engine_names_become_file_names() {
    let b = model(&[embedding()], "qwen3");
    let l = WeightLoader::from_gguf(&b).unwrap();
    let content = match &l {
        WeightLoader::Gguf { file, .. } => &file.content,
        _ => unreachable!(),
    };
    let map = |n: &str| map_engine_tensor_name(n, content);
    assert_eq!(map("lm_head.weight").unwrap(), "token_embd.weight");
    assert_eq!(
        map("model.layers.12.self_attn.o_proj.weight").unwrap(),
        "blk.12.attn_output.weight"
    );
    assert_eq!(map("model.norm.weight").unwrap(), "output_norm.weight");
    assert_eq!(map("other"), Err(LoadError::UnknownName));
    assert_eq!(
        map("model.layers.x.mlp.up_proj.weight"),
        Err(LoadError::LayerIndex)
    );
    assert_eq!(map("model.layers.0.bias"), Err(LoadError::UnknownSuffix));
}

#[test]
fn q8_0_weights_are_split() {
    let b = model(&[embedding(), q8_0()], "qwen3");
    let l = WeightLoader::from_gguf(&b).unwrap();
    match l.load_device_weight("model.layers.0.self_attn.q_proj.weight") {
        Ok(WeightUpload::Split { split, shape, .. }) => {
            assert_eq!(shape, vec![2, 32]);
            assert_eq!(split.scales, vec![0x3c00, 0x4000]);
            assert_eq!(split.qs.len(), 64);
            assert_eq!(split.qs[0], 1);
            assert_eq!(split.qs[31], 32);
            assert_eq!(split.qs[32], 101);
            assert_eq!(split.qs[63], -124);
        }
        _ => panic!("not split"),
    }
    match l.load_device_weight("model.embed_tokens.weight") {
        Ok(WeightUpload::Half { tensor }) => {
            assert_eq!(tensor.shape, vec![3, 2]);
            assert_eq!(tensor.data[1], HalfElement::Kept { bits: 0x0302 });
        }
        _ => panic!("not half"),
    }
    assert!(split_q8_0(&[2, 33], &[]).is_err());
    assert!(split_q8_0(&[2, 32], &[0; 67]).is_err());
    assert!(split_q8_0(&[2], &[0; 68]).is_err());
}

#[test]
fn resident_bytes_count_both_forms_of_q8_0() {
    let b = model(&[embedding(), q8_0()], "qwen3");
    let l = WeightLoader::from_gguf(&b).unwrap();
    assert_eq!(l.resident_weight_bytes(), Ok(12 + 2 * 68));
    // The scratch holds the one projection in half precision.
    assert_eq!(l.prefill_dequant_scratch_bytes(), 128);
}

#[test]
fn preflight_compares_the_sum_with_what_is_free() {
    let b = model(&[embedding(), q8_0()], "qwen3");
    let l = WeightLoader::from_gguf(&b).unwrap();
    let required = 148 + 100 * 16 + 128 + VRAM_SLACK_BYTES;
    let need = VramNeed {
        weights: 148,
        kv: 1600,
        scratch: 128,
        required,
    };
    assert_eq!(run_vram_preflight(&l, 100, 16, required), Ok(need));
    assert_eq!(
        run_vram_preflight(&l, 100, 16, required - 1),
        Err(EngineLoadError::TooLarge {
            need,
            free: required - 1
        })
    );
    assert_eq!(
        run_vram_preflight(&l, usize::MAX, 16, 0),
        Err(EngineLoadError::KvBytes)
    );
    assert_eq!(
        run_vram_preflight(&l, usize::MAX, 1, 0),
        Err(EngineLoadError::ByteTotal)
    );
    assert_eq!(VRAM_SLACK_BYTES, 700 * 1024 * 1024);
}

fn shard() -> Vec<u8> {
    let a: Vec<u8> = [1.5f32, -2.0]
        .iter()
        .flat_map(|v| v.to_le_bytes())
        .collect();
    let b: Vec<u8> = vec![0x80, 0x3f];
    let c: Vec<u8> = vec![1, 2, 3];
    let tensors = vec![
        ("a", TensorView::new(Dtype::F32, vec![2, 1], &a).unwrap()),
        ("b", TensorView::new(Dtype::BF16, vec![1], &b).unwrap()),
        ("c", TensorView::new(Dtype::U8, vec![3], &c).unwrap()),
    ];
    serialize(tensors, None).unwrap()
}

#[test]
fn shards_give_back_what_was_serialized() {
    let bytes = shard();
    let t = read_shard_tensor(&bytes, "a").unwrap();
    assert_eq!(t.dtype, ShardType::F32);
    assert_eq!(t.shape, vec![2, 1]);
    assert_eq!(t.data, &[0, 0, 0xc0, 0x3f, 0, 0, 0, 0xc0]);
    assert!(matches!(
        read_shard_tensor(&bytes, "z"),
        Err(ShardError::NoTensor)
    ));
    assert!(matches!(
        read_shard_tensor(&bytes[..9], "a"),
        Err(ShardError::Malformed)
    ));
}

fn with_header(head: &str, data: &[u8]) -> Vec<u8> {
    let mut b = (head.len() as u64).to_le_bytes().to_vec();
    b.extend_from_slice(head.as_bytes());
    b.extend_from_slice(data);
    b
}

#[test]
fn headers_that_describe_too_many_bytes_are_refused() {
    // Eight tensors, each of as many bytes as one can have.
    let each: u64 = (1 << 61) - 1;
    let tensors: Vec<String> = (0..8)
        .map(|i| {
            format!(
                r#""t{i}":{{"dtype":"U8","shape":[{each}],"data_offsets":[{},{}]}}"#,
                i * each,
                (i + 1) * each
            )
        })
        .collect();
    let b = with_header(&format!("{{{}}}", tensors.join(",")), &[]);
    assert!(matches!(
        read_shard_tensor(&b, "t0"),
        Err(ShardError::DescribedSize)
    ));
}

#[test]
fn large_numbers_of_a_header_are_read() {
    let head =
        r#"{"a":{"dtype":"F32","shape":[0,18446744073709551615],"data_offsets":[0,0]}}"#;
    let b = with_header(head, &[]);
    let t = read_shard_tensor(&b, "a").unwrap();
    assert_eq!(t.shape, vec![0, usize::MAX]);
    assert!(t.data.is_empty());
    let head = r#"{"a":{"dtype":"F32","shape":[18446744073709551615],"data_offsets":[0,4]}}"#;
    let b = with_header(head, &[0; 4]);
    assert!(matches!(
        read_shard_tensor(&b, "a"),
        Err(ShardError::Malformed)
    ));
}

fn sharded(bytes: &[u8]) -> WeightLoader<'_> {
    let mut weight_map = NameMap::new();
    for n in ["a", "b", "c"] {
        weight_map.insert(n.to_string(), "one.safetensors".to_string());
    }
    weight_map.insert("lost".to_string(), "two.safetensors".to_string());
    let mut shards = NameMap::new();
    shards.insert("one.safetensors".to_string(), bytes);
    WeightLoader::Sharded { weight_map, shards }
}

#[test]
fn indexed_tensors_are_found_in_their_shard() {
    let bytes = shard();
    let l = sharded(&bytes);
    let t = l.load_host_f16("a").unwrap();
    assert_eq!(t.shape, vec![2, 1]);
    assert_eq!(
        t.data,
        vec![
            HalfElement::Rounded {
                of: Element::Single {
                    bits: 1.5f32.to_bits()
                }
            },
            HalfElement::Rounded {
                of: Element::Single {
                    bits: (-2.0f32).to_bits()
                }
            }
        ]
    );
    let t = l.load_host_f16("b").unwrap();
    assert_eq!(
        t.data,
        vec![HalfElement::Rounded {
            of: Element::Brain { bits: 0x3f80 }
        }]
    );
    assert!(matches!(l.load_host_f16("x"), Err(LoadError::NotInIndex)));
    assert!(matches!(l.load_host_f16("lost"), Err(LoadError::NoShard)));
    assert!(matches!(
        l.load_host_f16("c"),
        Err(LoadError::Shard {
            error: ShardError::Unsupported
        })
    ));
    assert!(!l.is_gguf());
    assert!(l.gguf_config().is_none());
    assert_eq!(l.prefill_dequant_scratch_bytes(), 0);
}

#[test]
fn shard_files_are_named_once() {
    let mut weight_map = NameMap::new();
    for (n, f) in [("a", "2"), ("b", "1"), ("c", "2")] {
        weight_map.insert(n.to_string(), f.to_string());
    }
    let files = shard_files(&SafetensorsIndex { weight_map });
    assert_eq!(files.len(), 2);
    assert!(files.contains(&"1".to_string()) && files.contains(&"2".to_string()));
}

#[test]
fn gguf_files_are_told_by_their_extension() {
    assert!(is_gguf_extension(Some("gguf")));
    assert!(is_gguf_extension(Some("GGuf")));
    assert!(!is_gguf_extension(Some("bin")));
    assert!(!is_gguf_extension(None));
}

#[test]
fn unsupported_types_have_no_resident_form() {
    let t = Tensor {
        name: "odd",
        dims: vec![32],
        dtype: 2,
        bytes: vec![0; 18],
    };
    let b = model(&[embedding(), t], "qwen3");
    let l = WeightLoader::from_gguf(&b).unwrap();
    assert_eq!(
        l.resident_weight_bytes(),
        Err(LoadError::UnsupportedType {
            dtype: GgmlType::Q4_0
        })
    );
}
