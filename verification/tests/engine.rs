use grout::caches::{
    after_prompt, after_recording, before_prompt, cache_shape, check_step, decode_greedy_path,
    decode_logits_path, launch_step, launch_step_with_logits, lend_kv_caches_to_layers,
    reclaim_kv_caches_from_layers, recording_inputs, zero_kv_caches, AfterPrompt, BeforePrompt,
    CacheError, ClearBytes, LayerState, StepError, TokenPath,
};
use grout::config::{EosTokenId, GenerationConfig, Qwen3Config};
use grout::dequant::GgmlType;
use grout::engine::{
    checked_sum_bytes, default_max_ctx_for_config, engine_settings, kv_bytes_per_token,
    layers_are_countable,
    max_decode_quant_gemv_part_rows, max_transformer_quant_weight_elems, model_tensors,
    tokenizer_json_path, EngineLoadError, LayerTensor, LoadEnv, ModelTensor,
};
use grout::forward::LayerWeights;
use grout::gguf::Float;
use grout::kernel::{Grid, Kernel, KernelKind, KernelWarmRegistry};
use grout::profile::{ReportLine, RunProfile};
use grout::warmup::{
    quant_gemv_warmup_parts, warm_decode_graph_kernels, warm_quant_gemv_kernels,
    warm_tile_kernel, WarmDims, WarmOp,
};
use grout::weights::{DeviceBuffer, MatrixWeight, Weight};

fn config() -> Qwen3Config {
    Qwen3Config {
        vocab_size: 1000,
        hidden_size: 2560,
        intermediate_size: 9728,
        num_hidden_layers: 2,
        num_attention_heads: 32,
        num_key_value_heads: 8,
        head_dim: 128,
        rms_norm_eps: Float::Single {
            bits: 1e-6f32.to_bits(),
        },
        rope_theta: Float::Single {
            bits: 1e6f32.to_bits(),
        },
        max_position_embeddings: 40960,
        tie_word_embeddings: true,
        use_sliding_window: false,
        eos_token_id: 7,
    }
}

const NO_ENV: LoadEnv<'static> = LoadEnv {
    add_rms_block: None,
    rms_hidden_block: None,
    profile: None,
};

#[test]
fn settings_have_their_defaults() {
    let s = engine_settings(&config(), None, None, true, &NO_ENV).unwrap();
    assert_eq!(s.max_seq_len, 32768);
    assert_eq!(s.eos_token_ids, vec![7]);
    assert!(!s.do_sample);
    assert_eq!(f32::from_bits(s.temperature), 1.0);
    assert_eq!(s.top_k, 0);
    assert_eq!(f32::from_bits(s.top_p), 1.0);
    assert!(s.use_chat_template);
    assert!(s.use_device_argmax);
    assert_eq!((s.add_rms_block, s.rms_hidden_block), (2048, 512));
    assert!(!s.profile_enabled);
}

#[test]
fn generation_settings_replace_the_defaults() {
    let gen = GenerationConfig {
        do_sample: Some(true),
        temperature: Some(0.0f32.to_bits()),
        top_k: Some(20),
        top_p: Some(1.5f32.to_bits()),
        eos_token_id: Some(EosTokenId::Many(vec![1, 2])),
    };
    let env = LoadEnv {
        add_rms_block: Some("1024"),
        rms_hidden_block: Some("300"),
        profile: Some("yes"),
    };
    let mut s = engine_settings(&config(), Some(gen), Some(99999), false, &env).unwrap();
    assert_eq!(s.max_seq_len, 40960);
    assert_eq!(s.eos_token_ids, vec![1, 2]);
    assert!(s.do_sample);
    assert_eq!(f32::from_bits(s.temperature), 1.0e-5);
    assert_eq!(s.top_k, 20);
    assert_eq!(f32::from_bits(s.top_p), 1.0);
    assert_eq!(s.add_rms_block, 1024);
    // Not a power of two.
    assert_eq!(s.rms_hidden_block, 512);
    assert!(s.profile_enabled);
    s.set_ignore_eos(false);
    assert_eq!(s.eos_token_ids.len(), 2);
    s.set_ignore_eos(true);
    assert!(s.eos_token_ids.is_empty());
    // What was ignored once stays ignored.
    s.set_ignore_eos(false);
    assert!(s.eos_token_ids.is_empty());
    s.set_sampling_enabled(false);
    s.set_chat_template_enabled(true);
    s.set_device_argmax_enabled(false);
    s.set_profile_enabled(false);
    assert!(!s.do_sample && s.use_chat_template);
    assert!(!s.use_device_argmax && !s.profile_enabled);
}

#[test]
fn models_that_no_kernel_serves_are_refused() {
    let mut c = config();
    c.use_sliding_window = true;
    assert_eq!(
        engine_settings(&c, None, None, true, &NO_ENV).unwrap_err(),
        EngineLoadError::SlidingWindow
    );
    let mut c = config();
    c.head_dim = 64;
    assert_eq!(
        engine_settings(&c, None, None, true, &NO_ENV).unwrap_err(),
        EngineLoadError::HeadDim { head_dim: 64 }
    );
    let mut c = config();
    c.hidden_size = 4096;
    assert_eq!(default_max_ctx_for_config(&c), 16384);
}

#[test]
fn cache_bytes_are_counted_per_token() {
    assert_eq!(kv_bytes_per_token(&config()), Ok(2 * 8 * 128 * 4));
    let mut c = config();
    c.num_hidden_layers = usize::MAX;
    assert_eq!(
        kv_bytes_per_token(&c),
        Err(EngineLoadError::KvBytesPerToken)
    );
    assert_eq!(checked_sum_bytes(&[1, 2, 3]), Ok(6));
    assert_eq!(
        checked_sum_bytes(&[usize::MAX, 1]),
        Err(EngineLoadError::ByteTotal)
    );
}

#[test]
fn the_tokenizer_lies_with_the_model() {
    let path = |m: &str, p, gguf, exists| tokenizer_json_path(m, p, gguf, exists);
    assert_eq!(
        path("/m/q", None, false, false).unwrap(),
        "/m/q/tokenizer.json"
    );
    assert_eq!(path("m/", None, false, false).unwrap(), "m/tokenizer.json");
    assert_eq!(
        path("d/x.gguf", Some("d"), true, true).unwrap(),
        "d/tokenizer.json"
    );
    assert_eq!(
        path("x.gguf", Some(""), true, true).unwrap(),
        "tokenizer.json"
    );
    assert_eq!(path("/", None, true, true).unwrap(), "./tokenizer.json");
    assert_eq!(
        path("d/x.gguf", Some("d"), true, false),
        Err(EngineLoadError::NoTokenizer)
    );
}

#[test]
fn tensors_are_loaded_in_order() {
    let mut c = config();
    let names: Vec<String> = model_tensors(&c).into_iter().map(|t| t.name()).collect();
    assert_eq!(names.len(), 2 + 22);
    assert_eq!(names[0], "model.embed_tokens.weight");
    assert_eq!(names[1], "model.norm.weight");
    assert_eq!(names[2], "model.layers.0.self_attn.q_proj.weight");
    assert_eq!(names[12], "model.layers.0.mlp.down_proj.weight");
    assert_eq!(names[18], "model.layers.1.input_layernorm.weight");
    c.tie_word_embeddings = false;
    let t = model_tensors(&c);
    assert_eq!(t[1], ModelTensor::Head);
    assert!(t[1].is_matrix() && !t[2].is_matrix());
    assert!(!LayerTensor::KNorm.is_matrix());
}

fn buffer(shape: &[i32]) -> DeviceBuffer {
    DeviceBuffer {
        id: 0,
        shape: shape.to_vec(),
        size: shape.iter().product::<i32>() as usize,
    }
}

fn half(rows: i32, cols: i32) -> MatrixWeight {
    MatrixWeight::single(Weight::half(buffer(&[rows, cols])).unwrap())
}

fn q8_0(rows: usize, cols: usize) -> MatrixWeight {
    MatrixWeight::single(
        Weight::q8_0_soa(
            buffer(&[(rows * cols / 32 * 34) as i32]),
            buffer(&[rows as i32, cols as i32]),
            buffer(&[rows as i32, (cols / 32) as i32]),
            vec![rows, cols],
        )
        .unwrap(),
    )
}

fn q5k(rows: usize, cols: usize) -> MatrixWeight {
    let bytes = (rows * cols / 256 * 176) as i32;
    MatrixWeight::single(
        Weight::quantized(GgmlType::Q5K, buffer(&[bytes]), vec![rows, cols]).unwrap(),
    )
}

fn layer(quantized: bool) -> LayerWeights {
    LayerWeights {
        input_layernorm: buffer(&[1]),
        post_attention_layernorm: buffer(&[1]),
        q_norm: buffer(&[1]),
        k_norm: buffer(&[1]),
        qkv_proj: half(9999, 4),
        o_proj: if quantized { q8_0(16, 512) } else { half(1, 1) },
        gate_up_proj: if quantized { q5k(20, 256) } else { half(1, 1) },
        down_proj: if quantized { q8_0(8, 1024) } else { half(1, 1) },
    }
}

#[test]
fn scratch_follows_the_largest_quantized_part() {
    let layers = vec![layer(false), layer(true)];
    assert_eq!(max_transformer_quant_weight_elems(&layers), Some(8192));
    assert_eq!(max_decode_quant_gemv_part_rows(&layers), 20);
    let layers = vec![layer(false)];
    assert_eq!(max_transformer_quant_weight_elems(&layers), None);
    assert_eq!(max_decode_quant_gemv_part_rows(&layers), 1);
}

#[test]
fn split_products_are_warmed_once_per_width() {
    let layers = vec![layer(true), layer(true)];
    let parts = quant_gemv_warmup_parts(&half(1, 1), &q8_0(24, 512), &layers);
    // embedding, head, then qkv, o, gate/up and down of each layer
    assert_eq!(parts.len(), 10);
    let warmed: Vec<usize> = warm_quant_gemv_kernels(&parts)
        .into_iter()
        .map(|w| match w {
            WarmOp::QuantMatvec { part } => part,
            other => panic!("{other:?}"),
        })
        .collect();
    // The head for width 512, the first down projection for 1024; no Q5K.
    assert_eq!(warmed, vec![1, 5]);
}

#[test]
fn each_family_warms_on_small_shapes() {
    let d = WarmDims::of(&config(), 100, 128);
    let mut r = KernelWarmRegistry::new();
    let warm = |r: &KernelWarmRegistry, kind| warm_tile_kernel(r, kind, d, &[5000], &[]);
    // The token is kept inside the vocabulary.
    assert!(matches!(
        warm(&r, KernelKind::EmbeddingBatch)[..],
        [WarmOp::Embed { token: 999 }]
    ));
    assert_eq!(warm(&r, KernelKind::FlashAttnCausalSeq).len(), 2);
    match &warm(&r, KernelKind::ArgmaxReduceBlocks)[..] {
        [WarmOp::Call { call, .. }] => {
            assert_eq!(call.kernel, Kernel::ArgmaxReduceBlocks);
            assert_eq!(call.ints, vec![8]);
            assert_eq!(call.generics, vec![8]);
        }
        other => panic!("{other:?}"),
    }
    match &warm(&r, KernelKind::QkNormRopeKvDecode)[..] {
        [WarmOp::Call { call, .. }] => {
            assert_eq!(call.grid, Some(Grid { x: 40, y: 2, z: 1 }));
            assert_eq!(call.generics, vec![128, 64, 100]);
        }
        other => panic!("{other:?}"),
    }
    r.mark_warmed(KernelKind::Gemm);
    assert!(warm(&r, KernelKind::Gemm).is_empty());
    let d = WarmDims::of(&config(), 1, 128);
    let warm = |kind| warm_tile_kernel(&r, kind, d, &[], &[]);
    assert_eq!(warm(KernelKind::FlashAttnCausalSeq).len(), 1);
    assert!(warm(KernelKind::QkNormRopeKvPrefill).is_empty());
    assert_eq!(warm_decode_graph_kernels(d).len(), 3);
}

#[test]
fn lent_caches_come_back() {
    let empty = LayerState {
        k_cache: None,
        v_cache: None,
    };
    let mut caches = vec![(1, 2), (3, 4)];
    let mut layers = vec![empty; 2];
    lend_kv_caches_to_layers(&mut caches, &mut layers);
    assert!(caches.is_empty());
    assert_eq!(layers[1].v_cache, Some(4));
    reclaim_kv_caches_from_layers(&mut caches, &mut layers).unwrap();
    assert_eq!(caches, vec![(1, 2), (3, 4)]);
    assert_eq!(layers, vec![empty; 2]);
}

#[test]
fn a_missing_cache_stops_the_return() {
    let mut caches = vec![];
    let mut layers = vec![
        LayerState {
            k_cache: Some(1),
            v_cache: Some(2),
        },
        LayerState {
            k_cache: Some(3),
            v_cache: None,
        },
    ];
    assert_eq!(
        reclaim_kv_caches_from_layers(&mut caches, &mut layers),
        Err(CacheError::MissingValue { layer: 1 })
    );
    assert_eq!(caches, vec![(1, 2)]);
    let mut layers = vec![LayerState {
        k_cache: None,
        v_cache: Some(2),
    }];
    assert_eq!(
        reclaim_kv_caches_from_layers(&mut caches, &mut layers),
        Err(CacheError::MissingKey { layer: 0 })
    );
    assert_eq!(layers[0].v_cache, Some(2));
}

#[test]
fn caches_are_cleared_whole() {
    assert_eq!(cache_shape(8, 100, 128), vec![8, 100, 128]);
    let steps = zero_kv_caches(&vec![(1, 2), (3, 4)], 8, 100, 128);
    assert_eq!(steps.len(), 4);
    assert_eq!(
        steps[2],
        ClearBytes {
            buffer: 3,
            bytes: 8 * 100 * 128 * 2
        }
    );
}

#[test]
fn recordings_are_made_once_and_kept() {
    assert_eq!(before_prompt(false), BeforePrompt::Allocate);
    assert_eq!(before_prompt(true), BeforePrompt::ClearAndLend);
    assert_eq!(after_prompt(true, false, 0), AfterPrompt::Reclaim);
    assert_eq!(after_prompt(false, true, 1), AfterPrompt::Record);
    assert_eq!(after_prompt(false, true, 0), AfterPrompt::Keep);
    assert_eq!(after_prompt(false, false, 1), AfterPrompt::Keep);
    assert_eq!(decode_logits_path(3, 8, true, true), Ok(TokenPath::Recorded));
    assert_eq!(decode_logits_path(3, 8, true, false), Ok(TokenPath::Steps));
    assert_eq!(decode_greedy_path(3, 8, true), Ok(TokenPath::Recorded));
    assert_eq!(
        decode_greedy_path(8, 8, true),
        Err(StepError::PastContext {
            position: 8,
            max: 8
        })
    );
    assert!(decode_logits_path(usize::MAX, 8, true, true).is_err());
    assert!(decode_greedy_path(usize::MAX, usize::MAX, false).is_err());
    assert_eq!(launch_step(5, true).unwrap().s_kv, Some(6));
    assert_eq!(launch_step(5, false).unwrap().s_kv, None);
    assert_eq!(
        launch_step(1 << 32, false),
        Err(StepError::Position { position: 1 << 32 })
    );
    assert!(launch_step(usize::MAX, true).is_err());
    assert_eq!(
        launch_step_with_logits(u32::MAX as usize, true, true)
            .unwrap()
            .s_kv,
        Some(0)
    );
    assert_eq!(
        launch_step_with_logits(5, false, false),
        Err(StepError::NoLogits)
    );
    assert_eq!(check_step(0, 0, 8), Err(StepError::NoTokens));
    assert_eq!(check_step(3, 5, 8), Ok(()));
    assert!(check_step(4, 5, 8).is_err());
}

#[test]
fn the_longest_operations_come_first() {
    let mut p = RunProfile::new(Some("1"), Some("1"));
    p.add_step(5, false);
    p.add_step(2, true);
    p.add_step(3, true);
    p.add_op("Add", 4);
    p.add_op("MatMul", 9);
    p.add_op("Add", 3);
    let lines = p.render();
    assert!(matches!(lines[0], ReportLine::Title));
    assert!(matches!(
        lines[1],
        ReportLine::Steps {
            prefill_steps: 1,
            prefill_total: 5,
            decode_steps: 2,
            decode_total: 5
        }
    ));
    assert!(matches!(lines[2], ReportLine::SyncNote));
    assert!(matches!(lines[3], ReportLine::OpTitle));
    assert!(matches!(
        lines[4],
        ReportLine::Op {
            name: "MatMul",
            count: 1,
            total: 9
        }
    ));
    assert!(matches!(
        lines[5],
        ReportLine::Op {
            name: "Add",
            count: 2,
            total: 7
        }
    ));
    let mut p = RunProfile::new(None, Some("1"));
    p.add_op("Add", 4);
    assert_eq!(p.render().len(), 2);
}

#[test]
fn warm_up_needs_countable_sizes() {
    let d = WarmDims::of(&config(), 100, 128);
    assert!(d.fits());
    assert!(!WarmDims {
        argmax_block: 0,
        ..d
    }
    .fits());
    assert!(!WarmDims {
        kv_heads: usize::MAX / 2,
        ..d
    }
    .fits());
}

#[test]
fn a_failed_recording_leaves_the_caches_with_the_layers() {
    let state = LayerState {
        k_cache: Some(1),
        v_cache: Some(2),
    };
    let mut caches = Vec::new();
    let mut layers = vec![state; 2];
    after_recording(false, &mut caches, &mut layers).unwrap();
    assert!(caches.is_empty());
    assert_eq!(layers, vec![state; 2]);
    after_recording(true, &mut caches, &mut layers).unwrap();
    assert_eq!(caches, vec![(1, 2), (1, 2)]);
    assert!(layers.iter().all(|l| l.k_cache.is_none() && l.v_cache.is_none()));
    assert_eq!(
        after_recording(true, &mut caches, &mut layers),
        Err(CacheError::MissingKey { layer: 0 })
    );
}

#[test]
fn layers_have_countable_parts_and_profiles_room() {
    let layers = vec![layer(false), layer(true)];
    assert!(layers_are_countable(&layers));
    let mut p = RunProfile::new(Some("1"), None);
    assert!(p.has_room(u128::MAX));
    p.add_step(2, true);
    p.add_op("Add", 3);
    assert!(p.has_room(u128::MAX - 3));
    assert!(!p.has_room(u128::MAX - 2));
}

#[test]
fn steps_are_recorded_behind_the_prompt() {
    let inputs = recording_inputs(5).unwrap();
    assert_eq!((inputs.position, inputs.s_kv), (5, 6));
    let replay = launch_step(5, true).unwrap();
    assert_eq!(replay.position, inputs.position);
    assert_eq!(replay.s_kv, Some(inputs.s_kv));
    assert_eq!(recording_inputs(0).unwrap().s_kv, 1);
    assert!(recording_inputs(1 << 32).is_err());
}
