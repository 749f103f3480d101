use grout::decode_plan::{
    buffer_shape, build_decode_plan, decode_fits, logits_valid, read_decode_knobs, Action, Buf,
    DecodeAttention, DecodeDims, DecodeEnv, DecodeError, DecodeKnobs, DecodeMode, Shape,
};
use grout::kernel::Kernel;

const DIMS: DecodeDims = DecodeDims {
    hidden: 2560,
    heads: 32,
    kv_heads: 8,
    head_dim: 128,
    inter: 9728,
    vocab: 151936,
    layers: 3,
    max_seq_len: 4096,
    tmp_rows: 1,
};

const NO_ENV: DecodeEnv<'static> = DecodeEnv {
    attn_bn: None,
    flash_decode: None,
    rms_block: None,
    embed_block: None,
    fused_lm_head_argmax: None,
    argmax_block: None,
    kv_splits: None,
    decode_latency: None,
    decode_occupancy: None,
    split_kv: None,
    merge_chunk_d: None,
    merge_latency: None,
    rope_latency: None,
    fused_rope: None,
    rope_occupancy: None,
    rope_cga: None,
    kv_chunk_d: None,
    flash_kv_splits: None,
};

const MODE: DecodeMode = DecodeMode {
    plain_lm_head: true,
    device_argmax: true,
    sampling: false,
    debug_logits: false,
};

fn elems(s: Shape) -> usize {
    match s {
        Shape::D1(a) => a,
        Shape::D2(a, b) => a * b,
        Shape::D3(a, b, c) => a * b * c,
    }
}

fn check(k: DecodeKnobs) -> Vec<Kernel> {
    let steps = build_decode_plan(DIMS, k, 17).unwrap();
    let mut kernels = Vec::new();
    for s in &steps {
        for p in s.reads.iter().chain(s.writes.iter()) {
            if let Some(whole) = buffer_shape(DIMS, k, p.buf) {
                assert!(p.from + elems(p.shape) <= elems(whole), "{:?}", p);
            }
        }
        if let Action::Call(c) = &s.action {
            kernels.push(c.kernel);
        }
    }
    // The next token goes back to where the embedding reads it.
    assert_eq!(steps.last().unwrap().writes[0].buf, Buf::TokenIds);
    assert!(matches!(steps[0].action, Action::Embed));
    kernels
}

#[test]
fn tokens_are_computed_in_split_attention_by_default() {
    let k = read_decode_knobs(NO_ENV, MODE, DIMS);
    assert_eq!(k.attention, DecodeAttention::Split);
    assert!(logits_valid(k) != k.fused_lm_head);
    let kernels = check(k);
    let count = |x| kernels.iter().filter(|y| **y == x).count();
    assert_eq!(count(Kernel::FmhaDecodeGqaSplit), 3);
    assert_eq!(count(Kernel::SplitkReduceMerge), 3);
    assert_eq!(count(Kernel::ArgmaxReduceBlocks), 1);
}

#[test]
fn variables_change_the_attention() {
    let mut env = NO_ENV;
    env.split_kv = Some("0");
    let k = read_decode_knobs(env, MODE, DIMS);
    assert_eq!(k.attention, DecodeAttention::Plain);
    check(k);
    env.flash_decode = Some("1");
    env.flash_kv_splits = Some("1");
    let k = read_decode_knobs(env, MODE, DIMS);
    assert_eq!(k.attention, DecodeAttention::Grouped);
    let kernels = check(k);
    assert!(kernels.contains(&Kernel::AttentionDecodeGrouped));
}

#[test]
fn logits_are_kept_where_someone_reads_them() {
    let mut mode = MODE;
    mode.sampling = true;
    let k = read_decode_knobs(NO_ENV, mode, DIMS);
    assert!(logits_valid(k));
    let mut env = NO_ENV;
    env.fused_lm_head_argmax = Some("1");
    let k = read_decode_knobs(env, mode, DIMS);
    assert!(logits_valid(k));
    let k = read_decode_knobs(env, MODE, DIMS);
    assert!(!logits_valid(k));
    let kernels = check(k);
    assert!(kernels.contains(&Kernel::LmHeadArgmaxBlocks));
}

#[test]
fn positions_have_to_fit_the_device() {
    let k = read_decode_knobs(NO_ENV, MODE, DIMS);
    assert_eq!(
        build_decode_plan(DIMS, k, 1 << 32).unwrap_err(),
        DecodeError::Position { position: 1 << 32 }
    );
}

#[test]
fn steps_need_countable_sizes() {
    let k = read_decode_knobs(NO_ENV, MODE, DIMS);
    assert!(decode_fits(DIMS, k));
    assert!(!decode_fits(
        DecodeDims {
            kv_heads: 33,
            ..DIMS
        },
        k
    ));
    assert!(!decode_fits(
        DecodeDims {
            inter: usize::MAX / 2 + 1,
            ..DIMS
        },
        k
    ));
    assert!(!decode_fits(
        DecodeDims {
            head_dim: usize::MAX / 8,
            ..DIMS
        },
        k
    ));
}
