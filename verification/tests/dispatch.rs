use grout::attention::{
    attention_fits, read_attn_knobs, AttnDims, AttnEnv, PositionInput, KV_CACHE_BM_S_DEFAULT,
    KV_CACHE_DYN_CHUNK_D_DEFAULT,
};
use grout::caches::LayerState;
use grout::config::Qwen3Config;
use grout::dispatch::{plan_op, OpError, OpPlan, StepEnv, TokenInput};
use grout::forward::{build_step_graph, LayerWeights};
use grout::gguf::Float;
use grout::graph::{GraphOp, LayerWeightSlot, Op, TensorRef, TensorSpec, ValueId, WeightRef};
use grout::kernel::{Kernel, KernelWarmRegistry, LaunchError, TILE_KERNEL_KINDS};
use grout::products::Product;
use grout::warmup::{warm_step, warm_tile_kernel, WarmDims, WarmOp, WarmRows};
use grout::weights::{DeviceBuffer, MatrixWeight, Weight};

fn config() -> Qwen3Config {
    Qwen3Config {
        vocab_size: 1000,
        hidden_size: 64,
        intermediate_size: 96,
        num_hidden_layers: 2,
        num_attention_heads: 4,
        num_key_value_heads: 2,
        head_dim: 128,
        rms_norm_eps: Float::Single {
            bits: 1e-6f32.to_bits(),
        },
        rope_theta: Float::Single {
            bits: 1e6f32.to_bits(),
        },
        max_position_embeddings: 4096,
        tie_word_embeddings: true,
        use_sliding_window: false,
        eos_token_id: 7,
    }
}

fn buffer(shape: &[i32]) -> DeviceBuffer {
    DeviceBuffer {
        id: 0,
        shape: shape.to_vec(),
        size: shape.iter().product::<i32>() as usize,
    }
}

fn matrix(rows: i32, cols: i32) -> MatrixWeight {
    MatrixWeight::single(Weight::half(buffer(&[rows, cols])).unwrap())
}

fn layers() -> Vec<LayerWeights> {
    (0..2)
        .map(|_| LayerWeights {
            input_layernorm: buffer(&[64]),
            post_attention_layernorm: buffer(&[64]),
            q_norm: buffer(&[128]),
            k_norm: buffer(&[128]),
            qkv_proj: matrix(1024, 64),
            o_proj: matrix(64, 512),
            gate_up_proj: matrix(192, 64),
            down_proj: matrix(64, 96),
        })
        .collect()
}

const NO_ENV: AttnEnv<'static> = AttnEnv {
    bn_decode: None,
    bn_prefill: None,
    bm_prefill: None,
    gqa_lpt: None,
    gqa: None,
    prefill: None,
    gqa_group: None,
    latency: None,
    occupancy: None,
    schedule: None,
    mask_split: None,
    l2_bytes: None,
    swizzle: None,
};

struct Model {
    embed: MatrixWeight,
    norm: DeviceBuffer,
    layers: Vec<LayerWeights>,
    caches: Vec<LayerState>,
}

fn model() -> Model {
    let cache = LayerState {
        k_cache: Some(1),
        v_cache: Some(2),
    };
    Model {
        embed: matrix(1000, 64),
        norm: buffer(&[64]),
        layers: layers(),
        caches: vec![cache; 2],
    }
}

fn env(m: &Model, tokens: usize, start: usize) -> StepEnv<'_> {
    StepEnv {
        dims: AttnDims {
            heads: 4,
            kv_heads: 2,
            head_dim: 128,
            max_seq_len: 32,
        },
        hidden: 64,
        tokens: TokenInput::Host(tokens),
        position: PositionInput::Host(start),
        embed: &m.embed,
        head: &m.embed,
        norm: &m.norm,
        layers: &m.layers,
        caches: &m.caches,
        embed_block: 1024,
        add_rms_block: 2048,
        rms_block: 512,
        cache_tokens: KV_CACHE_BM_S_DEFAULT,
        cache_chunk: KV_CACHE_DYN_CHUNK_D_DEFAULT,
        knobs: read_attn_knobs(NO_ENV),
        sm100: false,
        scratch: None,
    }
}

#[test]
fn every_operation_of_a_step_launches() {
    let m = model();
    for (seqlen, fused) in [(1, false), (5, false), (5, true), (32, true)] {
        let g = build_step_graph(&config(), &m.layers, seqlen, fused).unwrap();
        let e = env(&m, seqlen, 32 - seqlen);
        let plans: Vec<OpPlan> = g
            .ops
            .iter()
            .map(|op| plan_op(&e, &g.specs, op).unwrap())
            .collect();
        assert!(matches!(&plans[0], OpPlan::Call { call } if call.kernel == Kernel::EmbeddingBatch));
        assert!(matches!(
            plans.last().unwrap(),
            OpPlan::Multiply { product: Product::Library { dims, .. } }
                if (dims.m, dims.n, dims.k) == (1000, 1, 64)
        ));
        for (op, plan) in g.ops.iter().zip(&plans) {
            assert_eq!(
                matches!(op, Op::Reshape { .. }),
                matches!(plan, OpPlan::Rename)
            );
        }
    }
}

#[test]
fn a_step_past_the_cache_does_not_launch() {
    let m = model();
    let g = build_step_graph(&config(), &m.layers, 5, false).unwrap();
    let e = env(&m, 5, 28);
    let error = g
        .ops
        .iter()
        .find_map(|op| plan_op(&e, &g.specs, op).err())
        .unwrap();
    assert_eq!(
        error,
        OpError::Launch {
            error: LaunchError::Range {
                start: 28,
                end: 33,
                limit: 32
            }
        }
    );
}

#[test]
fn a_step_needs_its_caches_and_tokens() {
    let mut m = model();
    m.caches[1].v_cache = None;
    let g = build_step_graph(&config(), &m.layers, 5, true).unwrap();
    let e = env(&m, 5, 0);
    let errors: Vec<OpError> = g
        .ops
        .iter()
        .filter_map(|op| plan_op(&e, &g.specs, op).err())
        .collect();
    let missing = OpError::Launch {
        error: LaunchError::MissingCache,
    };
    assert_eq!(errors, vec![missing, missing]);
    let e = env(&m, 0, 0);
    assert_eq!(
        plan_op(&e, &g.specs, &g.ops[0]).unwrap_err(),
        OpError::Launch {
            error: LaunchError::Empty
        }
    );
    let mut e = env(&m, 5, 0);
    e.tokens = TokenInput::Device(&[5]);
    assert!(plan_op(&e, &g.specs, &g.ops[0]).is_ok());
}

#[test]
fn weights_are_read_as_what_they_are() {
    let m = model();
    let e = env(&m, 1, 0);
    let specs = vec![TensorSpec::half(vec![1, 64]), TensorSpec::half(vec![1, 64])];
    let value = TensorRef::Value(ValueId(0));
    let weight = |slot| TensorRef::Weight(WeightRef::Layer { layer_idx: 0, slot });
    let plan = |op: GraphOp| plan_op(&e, &specs, &op).unwrap_err();
    assert_eq!(
        plan(Op::MatMul {
            matrix: weight(LayerWeightSlot::QNorm),
            rhs: value,
            out: ValueId(1)
        }),
        OpError::NotAMatrix
    );
    assert_eq!(
        plan(Op::Add {
            lhs: value,
            rhs: weight(LayerWeightSlot::OProj),
            out: ValueId(1)
        }),
        OpError::NotATensor
    );
    assert_eq!(
        plan(Op::Reshape {
            input: weight(LayerWeightSlot::QNorm),
            shape: vec![128],
            out: ValueId(1)
        }),
        OpError::ReshapeWeight
    );
}

fn library(plan: OpPlan) -> (usize, usize, usize, usize) {
    match plan {
        OpPlan::Multiply {
            product: Product::Library { dims, byte_offset },
        } => (dims.m, dims.n, dims.k, byte_offset),
        _ => panic!("not one product of the library"),
    }
}

#[test]
fn values_are_multiplied_by_as_half_precision_matrices() {
    let m = model();
    let e = env(&m, 1, 0);
    let specs: Vec<TensorSpec> = [vec![6, 64], vec![3, 64], vec![3, 6], vec![64], vec![6]]
        .into_iter()
        .chain([vec![3, 2], vec![1, 64], vec![1, 6]])
        .map(TensorSpec::half)
        .collect();
    let value = |i: usize| TensorRef::Value(ValueId(i));
    let plan = |op: GraphOp| plan_op(&e, &specs, &op);
    let product = |matrix: usize, rhs: usize, out: usize| {
        plan(Op::MatMul {
            matrix: value(matrix),
            rhs: value(rhs),
            out: ValueId(out),
        })
    };
    assert_eq!(library(product(0, 1, 2).unwrap()), (6, 3, 64, 0));
    assert_eq!(library(product(0, 6, 7).unwrap()), (6, 1, 64, 0));
    assert_eq!(
        product(0, 3, 2).unwrap_err(),
        OpError::Launch {
            error: LaunchError::Rank { rank: 1 }
        }
    );
    assert_eq!(
        product(2, 1, 2).unwrap_err(),
        OpError::Launch {
            error: LaunchError::InputShape
        }
    );
    assert_eq!(
        product(0, 1, 1).unwrap_err(),
        OpError::Launch {
            error: LaunchError::OutputShape
        }
    );
    let vector = plan(Op::MatVec {
        matrix: value(0),
        vector: value(3),
        out: ValueId(4),
    });
    assert_eq!(library(vector.unwrap()), (6, 1, 64, 0));
    let slice = plan(Op::MatMulSlice {
        matrix: value(0),
        row_offset: 4,
        out_features: 2,
        rhs: value(1),
        out: ValueId(5),
    });
    assert_eq!(library(slice.unwrap()), (2, 3, 64, 4 * 64 * 2));
}

#[test]
fn every_operation_of_warm_up_launches() {
    let m = model();
    let e = env(&m, 1, 0);
    let d = WarmDims::of(&config(), 32, 128);
    let rows = WarmRows {
        hidden: 64,
        qkv: 1024,
        head: 1000,
    };
    let r = KernelWarmRegistry::new();
    let mut launched = 0;
    for kind in TILE_KERNEL_KINDS {
        for w in warm_tile_kernel(&r, kind, d, &[7], &[]) {
            match warm_step(&w, rows) {
                Some(s) => {
                    plan_op(&e, &s.specs, &s.op).unwrap();
                    launched += 1;
                }
                None => assert!(matches!(
                    w,
                    WarmOp::Argmax { .. } | WarmOp::Call { .. } | WarmOp::QuantMatvec { .. }
                )),
            }
        }
    }
    assert!(launched >= 10);
}

#[test]
fn warm_up_of_a_product_is_a_product() {
    let rows = WarmRows {
        hidden: 64,
        qkv: 1024,
        head: 1000,
    };
    let s = warm_step(&WarmOp::Matmul { width: 64 }, rows).unwrap();
    let shapes: Vec<Vec<usize>> = s.specs.iter().map(|x| x.shape.clone()).collect();
    assert_eq!(shapes, vec![vec![1, 64], vec![1, 1024]]);
    assert!(matches!(
        s.op,
        Op::MatMul {
            matrix: TensorRef::Weight(WeightRef::Layer {
                layer_idx: 0,
                slot: LayerWeightSlot::QkvProj
            }),
            rhs: TensorRef::Value(ValueId(0)),
            out: ValueId(1)
        }
    ));
    assert!(warm_step(&WarmOp::Argmax { len: 8 }, rows).is_none());
}

#[test]
fn weights_of_a_layer_are_found_by_place() {
    let layer = &layers()[0];
    assert_eq!(layer.norm(LayerWeightSlot::QNorm).unwrap().shape, vec![128]);
    assert_eq!(
        layer.norm(LayerWeightSlot::InputLayerNorm).unwrap().shape,
        vec![64]
    );
    assert!(layer.norm(LayerWeightSlot::OProj).is_none());
    let down = layer.matrix(LayerWeightSlot::DownProj).unwrap();
    assert_eq!((down.rows(), down.cols()), (64, 96));
    assert!(layer.matrix(LayerWeightSlot::KNorm).is_none());
}

#[test]
fn attention_needs_countable_sizes() {
    let knobs = read_attn_knobs(NO_ENV);
    let dims = AttnDims {
        heads: 4,
        kv_heads: 2,
        head_dim: 128,
        max_seq_len: 32,
    };
    assert!(attention_fits(32, 0, dims, knobs));
    assert!(!attention_fits(2, usize::MAX - 1, dims, knobs));
    assert!(!attention_fits(usize::MAX / 2, 0, dims, knobs));
    assert!(!attention_fits(1, 0, AttnDims { kv_heads: 5, ..dims }, knobs));
    assert!(!attention_fits(1, 0, AttnDims { kv_heads: 0, ..dims }, knobs));
}
