//! The host side of a Qwen3 inference engine: model files, decode and prefill
//! planning, kernel launch planning and the session rules, with their contracts.
use vstd::prelude::*;
pub mod attention;
pub mod bench_attention;
pub mod bench_gemv;
pub mod bench_group;
pub mod bench_laws;
pub mod bench_quant;
pub mod caches;
pub mod choice;
pub mod config;
pub mod cublas;
pub mod decode_laws;
pub mod decode_plan;
pub mod dequant;
pub mod dequant_laws;
pub mod dispatch;
pub mod dispatch_laws;
pub mod engine;
pub mod float_laws;
pub mod forward;
pub mod forward_laws;
pub mod gemm;
pub mod generate;
pub mod gguf;
pub mod gguf_laws;
pub mod graph;
pub mod kernel;
pub mod knobs;
pub mod launch_laws;
pub mod loader;
pub mod loader_laws;
pub mod model;
pub mod names;
pub mod operand_laws;
pub mod plan_laws;
pub mod pointwise;
pub mod pool;
pub mod pool_plan;
pub mod products;
pub mod profile;
pub mod quant_scratch;
pub mod replay;
pub mod run;
pub mod run_laws;
pub mod sampling;
pub mod serving_laws;
pub mod session;
pub mod shape_laws;
pub mod shard;
pub mod step_graph;
pub mod text;
pub mod tiles;
pub mod tuning_laws;
pub mod warmup;
pub mod weight_laws;
pub mod weights;

verus! {

} // verus!
