use grout::caches::StepGraphCache;
use grout::config::Qwen3Config;
use grout::forward::{build_step_graph, step_dims, step_fits, LayerWeights};
use grout::gguf::Float;
use grout::graph::{GraphOp, Op, TensorRef, TensorSpec, ValueId, WeightRef};
use grout::pool::{RunError, TensorPool};
use grout::pool_plan::GraphError;
use grout::profile::graph_op_name;
use grout::run::{Arg, FinalLogitsPolicy, Held, StepRun};
use grout::step_graph::StepGraph;
use grout::weights::{DeviceBuffer, MatrixWeight, Weight};
use std::collections::HashSet;

fn config() -> Qwen3Config {
    Qwen3Config {
        vocab_size: 1000,
        hidden_size: 64,
        intermediate_size: 96,
        num_hidden_layers: 2,
        num_attention_heads: 4,
        num_key_value_heads: 2,
        head_dim: 128,
        rms_norm_eps: Float::Single {
            bits: 1e-6f32.to_bits(),
        },
        rope_theta: Float::Single {
            bits: 1e6f32.to_bits(),
        },
        max_position_embeddings: 4096,
        tie_word_embeddings: true,
        use_sliding_window: false,
        eos_token_id: 7,
    }
}

fn buffer(shape: &[i32]) -> DeviceBuffer {
    DeviceBuffer {
        id: 0,
        shape: shape.to_vec(),
        size: shape.iter().product::<i32>() as usize,
    }
}

fn matrix(rows: i32, cols: i32) -> MatrixWeight {
    MatrixWeight::single(Weight::half(buffer(&[rows, cols])).unwrap())
}

fn layers(o_cols: i32) -> Vec<LayerWeights> {
    (0..2)
        .map(|_| LayerWeights {
            input_layernorm: buffer(&[64]),
            post_attention_layernorm: buffer(&[64]),
            q_norm: buffer(&[128]),
            k_norm: buffer(&[128]),
            qkv_proj: matrix(1024, 64),
            o_proj: matrix(64, o_cols),
            gate_up_proj: matrix(192, 64),
            down_proj: matrix(64, 96),
        })
        .collect()
}

fn run(graph: &StepGraph, policy: FinalLogitsPolicy) -> Held {
    assert!(TensorPool::fits(&graph.pool_plan, 0));
    assert!(!TensorPool::fits(&graph.pool_plan, usize::MAX));
    let pool = TensorPool::from_plan(&graph.pool_plan, 0).unwrap();
    let next = pool.free.len();
    let mut r = StepRun::start(graph, pool, next, policy);
    for k in 0..graph.ops.len() {
        let launch = r.advance(graph, k).unwrap();
        let ins: HashSet<usize> = launch
            .args
            .iter()
            .filter_map(|a| match a {
                Arg::Buffer(h) => Some(h.id),
                Arg::Weight(_) => None,
            })
            .collect();
        let reshapes = matches!(graph.ops[k], Op::Reshape { .. });
        for g in &launch.outs {
            // Nothing is written over what the same operation reads, but a reshape takes
            // its input over.
            assert_eq!(ins.contains(&g.held.id), reshapes);
        }
    }
    // Only the result is still held.
    assert_eq!(r.values.iter().flatten().count(), 1);
    r.result(graph).unwrap()
}

#[test]
fn a_step_runs_to_its_logits() {
    let cfg = config();
    for (seqlen, fused) in [(1, false), (5, false), (5, true)] {
        assert!(step_fits(step_dims(&cfg, seqlen, fused)));
        let g = build_step_graph(&cfg, &layers(512), seqlen, fused).unwrap();
        let h = run(&g, FinalLogitsPolicy::Allocate);
        assert_eq!(h.numel, 1000);
        let given = Held {
            id: 777_777,
            numel: 1000,
        };
        assert_eq!(run(&g, FinalLogitsPolicy::Preallocated(given)), given);
        assert_eq!(graph_op_name(&g.ops[0]), "EmbeddingBatch");
        assert_eq!(graph_op_name(g.ops.last().unwrap()), "MatVec");
    }
}

#[test]
fn fused_steps_have_fewer_operations() {
    let cfg = config();
    let count = |fused| {
        build_step_graph(&cfg, &layers(512), 5, fused)
            .unwrap()
            .ops
            .len()
    };
    assert!(count(true) < count(false));
}

#[test]
fn steps_are_refused_with_their_reason() {
    let cfg = config();
    assert_eq!(
        build_step_graph(&cfg, &layers(512), 0, false).unwrap_err(),
        GraphError::NoTokens
    );
    assert_eq!(
        build_step_graph(&cfg, &layers(500), 1, false).unwrap_err(),
        GraphError::OutputProjection { layer: 0 }
    );
}

#[test]
fn graphs_are_built_once_per_length() {
    let cfg = config();
    let layers = layers(512);
    let mut cache = StepGraphCache::new(cfg);
    assert!(cache.get(3).is_none());
    let n = cache
        .get_or_build_step_graph(&layers, 3, false)
        .unwrap()
        .ops
        .len();
    assert_eq!(cache.get(3).unwrap().ops.len(), n);
    assert!(cache.get_or_build_step_graph(&layers, 0, false).is_err());
    assert!(cache.get(4).is_none());
    // What is kept is what is built.
    let built = build_step_graph(&cfg, &layers, 3, false).unwrap();
    let kept = cache.get(3).unwrap();
    assert_eq!(kept.final_value, built.final_value);
    for (a, b) in kept.specs.iter().zip(&built.specs) {
        assert_eq!(a.shape, b.shape);
    }
    // A graph stays as it was first built.
    let again = cache.get_or_build_step_graph(&layers, 3, true).unwrap();
    assert_eq!(again.ops.len(), n);
}

fn add(a: usize, b: usize, out: usize) -> GraphOp {
    Op::Add {
        lhs: TensorRef::Value(ValueId(a)),
        rhs: TensorRef::Value(ValueId(b)),
        out: ValueId(out),
    }
}

fn specs(n: usize) -> Vec<TensorSpec> {
    (0..n).map(|_| TensorSpec::half(vec![2, 3])).collect()
}

#[test]
fn the_plan_counts_what_is_alive_at_once() {
    let ops = vec![
        Op::EmbeddingBatch { out: ValueId(0) },
        add(0, 0, 1),
        add(0, 1, 2),
        add(2, 2, 3),
    ];
    let g = StepGraph::new(ops, specs(4), ValueId(3)).unwrap();
    assert_eq!(g.use_counts, vec![3, 1, 2, 0]);
    // Values 0, 1 and 2 live together; the result has a buffer of its own.
    assert_eq!(g.pool_plan.high_water_bytes, 3 * 12);
    let h = run(&g, FinalLogitsPolicy::Allocate);
    assert_eq!(h.numel, 6);
}

#[test]
fn broken_graphs_are_refused() {
    let ops = || vec![Op::EmbeddingBatch { out: ValueId(0) }, add(0, 0, 1)];
    assert_eq!(
        StepGraph::new(ops(), specs(2), ValueId(2)).unwrap_err(),
        GraphError::FinalRange {
            value: 2,
            values: 2
        }
    );
    assert_eq!(
        StepGraph::new(ops(), specs(2), ValueId(0)).unwrap_err(),
        GraphError::FinalUsed { count: 2 }
    );
    let mut v = ops();
    v.insert(
        1,
        Op::Reshape {
            input: TensorRef::Value(ValueId(0)),
            shape: vec![3, 2],
            out: ValueId(2),
        },
    );
    assert_eq!(
        StepGraph::new(v, specs(3), ValueId(1)).unwrap_err(),
        GraphError::ReshapeShared { value: 0, count: 3 }
    );
    let v: Vec<GraphOp> = vec![Op::Reshape {
        input: TensorRef::Weight(WeightRef::Norm),
        shape: vec![3, 2],
        out: ValueId(0),
    }];
    assert_eq!(
        StepGraph::new(v, specs(1), ValueId(0)).unwrap_err(),
        GraphError::ReshapeWeight
    );
}

#[test]
fn buffers_are_used_again() {
    let ops = vec![Op::EmbeddingBatch { out: ValueId(0) }, add(0, 0, 1)];
    let g = StepGraph::new(ops, specs(2), ValueId(1)).unwrap();
    let mut pool = TensorPool::from_plan(&g.pool_plan, 40).unwrap();
    let spec = TensorSpec::half(vec![2, 3]);
    assert_eq!(pool.checkout(&spec), Some(40));
    assert_eq!(pool.checkout(&spec), None);
    assert_eq!(pool.checkin(40, 6, &spec), Ok(true));
    // Another shape of as many elements may take the buffer.
    assert_eq!(pool.checkout(&TensorSpec::half(vec![6])), Some(40));
    assert_eq!(
        pool.checkin(40, 5, &spec),
        Err(RunError::CheckinNumel {
            numel: 5,
            expected: 6
        })
    );
    // No more is kept than was ever alive at once.
    assert_eq!(pool.checkin(40, 6, &spec), Ok(true));
    assert_eq!(pool.checkin(41, 6, &spec), Ok(false));
}
