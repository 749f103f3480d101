//! The benchmarks measure what they say: shapes of the models, whole products, all their bytes.
use crate::bench_attention::{
    attention_calls, attn_args_fit, attn_mode_of, bench_lpt_call, lpt_group_check, merge_call,
    scratch_shape, split_call, swizzle_of_args, AttnArgs, AttnError, AttnMode,
};
use crate::bench_gemv::{
    all_shapes, mode_of, model_of, named_shapes, projection_of, shape_of_model, shapes_in,
    traffic_of, vectors_of,
    BenchMode, BenchShape, GemvError, ModelSize, Projection,
};
use crate::bench_group::{
    bucket_blocks, bucket_call, fields, meta_of, metas_of, mixed_problem, problems_of, shape_at,
    shapes_of, tile_of, GroupArgs, GroupError, Problem, TensorRole, TileConfig,
};
use crate::bench_quant::{
    copies_of, listed, moved_of, projection_text, quant_launch, row_tile, split_bytes, split_run,
    with_unique, BenchKind, BenchModel, QuantBenchError, QuantLaunch, SplitShape, SplitType,
};
use crate::engine::{LayerTensor, ModelTensor};
use crate::gguf::{GgufError, TensorModel};
use crate::kernel::Grid;
use crate::knobs::{heads_that_fit, law_floor_pow2, LPT_L2_BYTES};
use crate::loader::{gguf_name, LoadError};
use crate::loader_laws::law_tensors_are_where_they_belong;
use crate::pointwise::law_blocks_cover;
use crate::text::{
    decimal_text, is_digit, law_decimal_round_trip, law_trim, lemma_decimal_text_value, lower_all,
    split_spec, trim_spec,
};
use vstd::prelude::*;

verus! {

/// Sizes of a model: hidden states, queries, keys, the middle of the feed-forward part, and the
/// vocabulary.
pub open spec fn sizes_of(size: ModelSize) -> (nat, nat, nat, nat, nat) {
    match size {
        ModelSize::B4 => (2560, 32 * 128, 8 * 128, 9728, 151936),
        ModelSize::B32 => (5120, 64 * 128, 8 * 128, 25600, 151936),
    }
}

/// The shapes are those of the projections of a model: each takes what comes before it and
/// gives what comes after it.
pub proof fn law_shapes_are_of_the_model(size: ModelSize)
    ensures
        ({
            let (hidden, queries, keys, middle, vocab) = sizes_of(size);
            let qkv = shape_of_model(size, Projection::Qkv);
            let o = shape_of_model(size, Projection::O);
            let gate_up = shape_of_model(size, Projection::GateUp);
            let down = shape_of_model(size, Projection::Down);
            let head = shape_of_model(size, Projection::LmHead);
            &&& qkv.k == hidden && qkv.m == queries + 2 * keys
            &&& o.k == queries && o.m == hidden
            &&& gate_up.k == hidden && gate_up.m == 2 * middle
            &&& down.k == middle && down.m == hidden
            &&& head.k == hidden && head.m == vocab
        }),
{
}

/// The parts of a projection of the large model make up the whole.
pub proof fn law_parts_make_up_the_whole(p: Projection)
    ensures
        ({
            let s = ModelSize::B32;
            let (q, k, v) = (
                shape_of_model(s, Projection::Q),
                shape_of_model(s, Projection::K),
                shape_of_model(s, Projection::V),
            );
            let (g, u) = (
                shape_of_model(s, Projection::GateOnly),
                shape_of_model(s, Projection::UpOnly),
            );
            let (qkv, gu) = (
                shape_of_model(s, Projection::Qkv),
                shape_of_model(s, Projection::GateUp),
            );
            &&& q.m + k.m + v.m == qkv.m && k.m == v.m && q.m == 8192
            &&& g.m + u.m == gu.m && g.m == u.m
            &&& q.k == qkv.k && k.k == qkv.k && v.k == qkv.k && g.k == gu.k && u.k == gu.k
        }),
        shape_of_model(ModelSize::B4, p).projection == p,
        shape_of_model(ModelSize::B32, p).projection == p,
{
}

/// Every projection is found by its own name; parts of projections only of the large model.
pub proof fn law_projections_are_found_by_name(size: ModelSize, p: Projection)
    ensures
        p is Qkv || p is O || p is GateUp || p is Down || p is LmHead || size is B32
            ==> projection_of(size, p.text()) == Some(p),
        size is B4 && (p is Q || p is K || p is V || p is GateOnly || p is UpOnly)
            ==> projection_of(size, p.text()) is None,
        projection_of(size, "q_proj"@) == Some(Projection::Qkv),
        projection_of(size, "k_proj"@) == Some(Projection::Qkv),
        projection_of(size, "v_proj"@) == Some(Projection::Qkv),
        projection_of(size, "gate_proj"@) == Some(Projection::GateUp),
        projection_of(size, "up_proj"@) == Some(Projection::GateUp),
        projection_of(size, "down_proj"@) == Some(Projection::Down),
{
    lemma_names(size, p);
}

/// No two of the names are the same.
#[verifier::rlimit(40)]
#[verifier::spinoff_prover]
proof fn lemma_names(size: ModelSize, p: Projection)
    ensures
        p is Qkv || p is O || p is GateUp || p is Down || p is LmHead || size is B32
            ==> projection_of(size, p.text()) == Some(p),
        size is B4 && (p is Q || p is K || p is V || p is GateOnly || p is UpOnly)
            ==> projection_of(size, p.text()) is None,
        projection_of(size, "q_proj"@) == Some(Projection::Qkv),
        projection_of(size, "k_proj"@) == Some(Projection::Qkv),
        projection_of(size, "v_proj"@) == Some(Projection::Qkv),
        projection_of(size, "gate_proj"@) == Some(Projection::GateUp),
        projection_of(size, "up_proj"@) == Some(Projection::GateUp),
        projection_of(size, "down_proj"@) == Some(Projection::Down),
{
    reveal_strlit("qkv");
    reveal_strlit("q_proj");
    reveal_strlit("k_proj");
    reveal_strlit("v_proj");
    reveal_strlit("o_proj");
    reveal_strlit("o");
    reveal_strlit("gate_up");
    reveal_strlit("gate");
    reveal_strlit("up");
    reveal_strlit("gate_proj");
    reveal_strlit("up_proj");
    reveal_strlit("down");
    reveal_strlit("down_proj");
    reveal_strlit("lm_head");
    reveal_strlit("lm");
    reveal_strlit("head");
    reveal_strlit("q");
    reveal_strlit("k");
    reveal_strlit("v");
    reveal_strlit("q_only");
    reveal_strlit("k_only");
    reveal_strlit("v_only");
    reveal_strlit("gate_only");
    reveal_strlit("up_only");
    assert("qkv"@.len() == 3 && "q_proj"@.len() == 6 && "k_proj"@.len() == 6);
    assert("v_proj"@.len() == 6 && "o_proj"@.len() == 6 && "o"@.len() == 1);
    assert("gate_up"@.len() == 7 && "gate"@.len() == 4 && "up"@.len() == 2);
    assert("gate_proj"@.len() == 9 && "up_proj"@.len() == 7 && "down"@.len() == 4);
    assert("down_proj"@.len() == 9 && "lm_head"@.len() == 7 && "lm"@.len() == 2);
    assert("head"@.len() == 4 && "q"@.len() == 1 && "k"@.len() == 1);
    assert("v"@.len() == 1 && "q_only"@.len() == 6 && "k_only"@.len() == 6);
    assert("v_only"@.len() == 6 && "gate_only"@.len() == 9 && "up_only"@.len() == 7);
    assert("qkv"@[1] == 'k' && "q_proj"@[1] == '_' && "o_proj"@[0] == 'o');
    assert("k_proj"@[0] == 'k' && "v_proj"@[0] == 'v' && "gate_up"@[5] == 'u');
    assert("gate_proj"@[5] == 'p' && "gate_only"@[5] == 'o' && "up_proj"@[3] == 'p');
    assert("up_only"@[3] == 'o' && "down_proj"@[0] == 'd' && "lm_head"@[0] == 'l');
    assert("gate"@[0] == 'g' && "down"@[0] == 'd' && "head"@[0] == 'h' && "up"@[0] == 'u');
    assert("lm"@[0] == 'l' && "q"@[0] == 'q' && "k"@[0] == 'k' && "v"@[0] == 'v' && "o"@[0] == 'o');
    assert("k_proj"@[2] == 'p' && "v_proj"@[2] == 'p' && "o_proj"@[2] == 'p');
    assert("k_only"@[2] == 'o' && "v_only"@[2] == 'o' && "q_only"@[0] == 'q');
    assert("lm_head"@[3] == 'h' && "gate_up"@[3] == 'e' && "down_proj"@[5] == 'p');
    assert("q_only"@[2] == 'o' && "q_proj"@[2] == 'p' && "k_only"@[0] == 'k' && "v_only"@[0] == 'v');
    assert("gate_up"@[0] == 'g' && "gate_proj"@[0] == 'g' && "gate_only"@[0] == 'g');
    assert("up_proj"@[0] == 'u' && "up_only"@[0] == 'u' && "q_proj"@[0] == 'q' && "qkv"@[0] == 'q');
}

/// A list of names gives the shapes of the projections in its order.
pub proof fn law_named_shapes_keep_their_order(
    size: ModelSize,
    pieces: Seq<Seq<char>>,
    projections: Seq<Projection>,
)
    requires
        pieces.len() == projections.len(),
        forall|i: int|
            0 <= i < pieces.len() ==> trim_spec(#[trigger] pieces[i]).len() > 0 && projection_of(
                size,
                trim_spec(pieces[i]),
            ) == Some(projections[i]),
    ensures
        named_shapes(size, pieces) == Ok::<Seq<BenchShape>, GemvError>(
            Seq::new(pieces.len(), |i: int| shape_of_model(size, projections[i])),
        ),
    decreases pieces.len(),
{
    let want = Seq::new(pieces.len(), |i: int| shape_of_model(size, projections[i]));
    if pieces.len() == 0 {
        assert(want =~= Seq::empty());
    } else {
        let (rest, ps) = (pieces.drop_last(), projections.drop_last());
        assert forall|i: int| 0 <= i < rest.len() implies trim_spec(#[trigger] rest[i]).len() > 0
            && projection_of(size, trim_spec(rest[i])) == Some(ps[i]) by {
            assert(rest[i] == pieces[i]);
        }
        law_named_shapes_keep_their_order(size, rest, ps);
        assert(pieces[pieces.len() - 1] == pieces.last());
        assert(Seq::new(rest.len(), |i: int| shape_of_model(size, ps[i])).push(
            shape_of_model(size, projections.last()),
        ) =~= want);
    }
}

/// Without names the five whole projections run, each once.
pub proof fn law_all_shapes_are_the_projections(size: ModelSize)
    ensures
        all_shapes(size).len() == 5,
        all_shapes(size)[0].projection is Qkv,
        all_shapes(size)[1].projection is O,
        all_shapes(size)[2].projection is GateUp,
        all_shapes(size)[3].projection is Down,
        all_shapes(size)[4].projection is LmHead,
        forall|i: int|
            0 <= i < 5 ==> #[trigger] all_shapes(size)[i] == shape_of_model(
                size,
                all_shapes(size)[i].projection,
            ),
{
}

/// One vector moves the weights, itself and its result; more vectors move the weights no more
/// often.
pub proof fn law_weights_are_moved_once(shape: BenchShape, n: usize)
    ensures
        vectors_of(BenchMode::Gemv, n) == 1,
        vectors_of(BenchMode::Gemm, n) == n,
        traffic_of(shape, n).0 == 2 * (shape.m * shape.k),
        traffic_of(shape, n).1 - traffic_of(shape, n).0 == 2 * n * (shape.k + shape.m),
{
    let (m, k, c) = (shape.m as int, shape.k as int, n as int);
    assert((m * k + c * k + c * m) * 2 - m * k * 2 == 2 * c * (k + m)) by (nonlinear_arith);
}

/// Attentions by their names, in any case.
pub proof fn law_attention_modes_have_names()
    ensures
        attn_mode_of("causal"@) == Ok::<AttnMode, AttnError>(AttnMode::Causal),
        attn_mode_of("gqa"@) == Ok::<AttnMode, AttnError>(AttnMode::Gqa),
        attn_mode_of("gqa-lpt"@) == Ok::<AttnMode, AttnError>(AttnMode::GqaLpt),
        attn_mode_of("gqa-lpt-split"@) == Ok::<AttnMode, AttnError>(AttnMode::GqaLptSplit),
        mode_of("gemv"@) == Ok::<BenchMode, GemvError>(BenchMode::Gemv),
        mode_of("gemm"@) == Ok::<BenchMode, GemvError>(BenchMode::Gemm),
{
    reveal_strlit("causal");
    reveal_strlit("gqa");
    reveal_strlit("gqa-lpt");
    reveal_strlit("gqa-lpt-split");
    reveal_strlit("gemv");
    reveal_strlit("gemm");
    lemma_plain("causal"@);
    lemma_plain("gqa"@);
    lemma_plain("gqa-lpt"@);
    lemma_plain("gqa-lpt-split"@);
    lemma_plain("gemv"@);
    lemma_plain("gemm"@);
    assert("gemv"@[3] == 'v' && "gemm"@[3] == 'm');
}

/// A text of small letters, digits and dashes is read as it is.
proof fn lemma_plain(s: Seq<char>)
    requires
        s.len() > 0,
        forall|i: int|
            0 <= i < s.len() ==> 'a' <= #[trigger] s[i] <= 'z' || '0' <= s[i] <= '9' || s[i] == '-',
    ensures
        lower_all(trim_spec(s)) == s,
{
    let none = Seq::<char>::empty();
    assert('a' <= s[0] <= 'z' || '0' <= s[0] <= '9' || s[0] == '-');
    assert(s.last() == s[s.len() - 1]);
    law_trim(none, s, none);
    assert forall|i: int| 0 <= i < s.len() implies crate::text::lower(#[trigger] s[i]) == s[i] by {}
    assert(lower_all(s) =~= s);
}

/// The parts of a split attention fill their buffers: one row per block of queries and group of
/// heads, as many blocks as the kernels run; and in each row all parts of the block.
pub proof fn law_parts_fill_their_buffers(a: AttnArgs, g: usize)
    requires
        attn_args_fit(a),
        lpt_group_check(a) == Ok::<usize, AttnError>(g),
        a.bm >= 1,
        a.q_len >= 1,
        a.merge_chunk_d >= 1,
    ensures
        ({
            let (rows, cols) = scratch_shape(a)->Ok_0;
            let (split, merge) = (split_call(a, g), merge_call(a, g));
            &&& scratch_shape(a) is Ok
            &&& split.grid matches Some(x) && x.x == rows && x.y == a.kv_splits
            &&& merge.grid matches Some(x) && x.x == rows && x.y == a.head_dim / a.merge_chunk_d
            &&& cols == a.kv_splits * (a.bm * g)
            &&& split.generics[4] == a.bm * g && split.generics[6] == a.kv_splits
                && split.generics[7] == cols
            &&& merge.generics[3] == a.bm * g && merge.generics[5] == a.kv_splits
                && merge.generics[6] == cols
            &&& (split.ints[4] - 1) * a.bm < a.q_len <= split.ints[4] * a.bm
            &&& split.ints[5] * g == a.q_heads
            &&& merge.ints[1] == split.ints[4] && merge.ints[2] == split.ints[5] && merge.ints[3]
                == split.ints[6]
        }),
{
    law_blocks_cover(a.q_len as int, a.bm as int);
    let blocks = crate::pointwise::blocks_for(a.q_len as int, a.bm as int);
    let groups = a.q_heads as int / g as int;
    assert(a.kv_splits * a.bm * g == a.kv_splits * (a.bm * g)) by (nonlinear_arith);
    assert(blocks <= a.q_len) by (nonlinear_arith)
        requires
            (blocks - 1) * a.bm < a.q_len,
            a.bm >= 1,
            blocks >= 1,
    ;
    assert(groups * g == a.q_heads) by (nonlinear_arith)
        requires
            groups == a.q_heads as int / g as int,
            a.q_heads as int % g as int == 0,
            g >= 1,
    ;
    assert(blocks * groups >= 0 && a.bm * g >= 0 && a.kv_splits * (a.bm * g) >= 0)
        by (nonlinear_arith)
        requires
            blocks >= 1,
            groups >= 0,
            a.bm >= 1,
            g >= 1,
            a.kv_splits >= 0,
    ;
    lemma_split_sizes(a, g);
}

#[verifier::spinoff_prover]
proof fn lemma_split_sizes(a: AttnArgs, g: usize)
    requires
        g >= 1,
    ensures
        ({
            let (split, merge) = (split_call(a, g), merge_call(a, g));
            let blocks = crate::pointwise::blocks_for(a.q_len as int, a.bm as int) as usize;
            let groups = a.q_heads / g;
            &&& split.ints[4] == blocks && split.ints[5] == groups
            &&& merge.ints[1] == blocks && merge.ints[2] == groups && merge.ints[3]
                == split.ints[6]
            &&& split.generics[4] == (a.bm * g) as usize && split.generics[6] == a.kv_splits
            &&& split.generics[7] == (a.kv_splits * (a.bm * g)) as usize
            &&& merge.generics[3] == (a.bm * g) as usize && merge.generics[5] == a.kv_splits
            &&& merge.generics[6] == (a.kv_splits * (a.bm * g)) as usize
            &&& split.grid == Some(Grid { x: (blocks * groups) as usize, y: a.kv_splits, z: 1 })
            &&& merge.grid == Some(
                Grid { x: (blocks * groups) as usize, y: a.head_dim / a.merge_chunk_d, z: 1 },
            )
        }),
{
    let groups = a.q_heads / g;
    assert(0 <= groups <= a.q_heads) by (nonlinear_arith)
        requires
            groups == a.q_heads / g,
            g >= 1,
    ;
    let s = swizzle_of_args(a, groups);
    let fit = heads_that_fit(a.q_len, a.head_dim, LPT_L2_BYTES);
    law_floor_pow2(fit as nat);
    assert(s >= 1);
    assert(0 <= groups / s <= groups && 0 <= groups % s < s) by (nonlinear_arith)
        requires
            s >= 1,
            groups >= 0,
    ;
}

/// A whole attention over the same stretches runs as many blocks, in one part; the kernels of
/// one attention come in order, and parts are merged only where there are buffers for them.
pub proof fn law_attentions_run_their_kernels(a: AttnArgs, g: usize)
    requires
        lpt_group_check(a) == Ok::<usize, AttnError>(g),
    ensures
        bench_lpt_call(a, g).ints == split_call(a, g).ints,
        bench_lpt_call(a, g).grid->0.x == split_call(a, g).grid->0.x,
        bench_lpt_call(a, g).grid->0.y == 1,
        attention_calls(a, AttnMode::GqaLpt, false, false)->Ok_0 == seq![bench_lpt_call(a, g)],
        attention_calls(a, AttnMode::GqaLptSplit, true, true)->Ok_0 == seq![
            split_call(a, g),
            merge_call(a, g),
        ],
        attention_calls(a, AttnMode::GqaLptSplit, false, true)->Err_0 == AttnError::NoPartial,
        attention_calls(a, AttnMode::GqaLptSplit, true, false)->Err_0 == AttnError::NoPartialSums,
        attention_calls(a, AttnMode::Causal, false, false) is Ok,
        attention_calls(a, AttnMode::Causal, false, false)->Ok_0.len() == 1,
        attention_calls(a, AttnMode::Gqa, false, false)->Ok_0.len() == 1,
{
}

/// The matrices of a product fit each other: `A` times `B` is `C`, each row after row.
pub proof fn law_matrices_fit_each_other(p: Problem)
    ensures
        ({
            let (a, b, c) = (
                meta_of(p, TensorRole::A),
                meta_of(p, TensorRole::B),
                meta_of(p, TensorRole::C),
            );
            &&& a.0 == c.0 && a.0 == p.m
            &&& a.1 == b.0 && a.1 == p.k
            &&& b.1 == c.1 && b.1 == p.n
            &&& a.2 == a.1 && b.2 == b.1 && c.2 == c.1
        }),
{
}

/// Each product has eight entries: rows, columns and stride, then zeros.
pub proof fn law_products_have_eight_entries(problems: Seq<Problem>, role: TensorRole, i: int, j: int)
    requires
        0 <= i < problems.len(),
        3 <= j < 8,
    ensures
        ({
            let (m, (rows, cols, stride)) = (metas_of(problems, role), meta_of(problems[i], role));
            &&& m.len() == 8 * problems.len()
            &&& m[8 * i] == rows as i32
            &&& m[8 * i + 1] == cols as i32
            &&& m[8 * i + 2] == stride as i32
            &&& m[8 * i + j] == 0
        }),
{
    assert((8 * i) / 8 == i && (8 * i) % 8 == 0);
    assert((8 * i + 1) / 8 == i && (8 * i + 1) % 8 == 1);
    assert((8 * i + 2) / 8 == i && (8 * i + 2) % 8 == 2);
    assert((8 * i + j) / 8 == i && (8 * i + j) % 8 == j);
}

/// A launch fills the device and no more: clusters of blocks share its multiprocessors as often
/// as asked, and there is always one.
pub proof fn law_blocks_share_the_device(cfg: TileConfig, sms: usize, count: nat)
    requires
        cfg.num_ctas >= 1,
        bucket_blocks(cfg, sms) <= usize::MAX,
        count <= usize::MAX,
    ensures
        bucket_blocks(cfg, sms) >= 1,
        bucket_blocks(cfg, sms) == 1 || bucket_blocks(cfg, sms) * cfg.num_ctas <= sms
            * cfg.occupancy,
        bucket_call(cfg, count, sms).grid == Some(
            Grid { x: bucket_blocks(cfg, sms) as usize, y: 1, z: 1 },
        ),
        bucket_call(cfg, count, sms).ints == seq![count as usize],
        bucket_call(cfg, count, sms).generics == seq![
            cfg.bm,
            cfg.bn,
            cfg.bk,
            bucket_blocks(cfg, sms) as usize,
        ],
{
    let (s, c, o) = (sms as int, cfg.num_ctas as int, cfg.occupancy as int);
    let per = s / c;
    assert(per * o * c <= s * o) by (nonlinear_arith)
        requires
            per == s / c,
            c >= 1,
            s >= 0,
            o >= 0,
    ;
}

/// Without a list there are as many products as groups: all alike, or of mixed sizes that come
/// again after four.
#[verifier::spinoff_prover]
pub proof fn law_products_are_as_many_as_groups(args: GroupArgs, i: int)
    requires
        args.shapes is None,
        0 <= i < args.groups,
    ensures
        problems_of(args) matches Ok(s) && s.len() == args.groups && (args.heterogeneous ==> s[i]
            == mixed_problem(i)) && (!args.heterogeneous ==> s[i] == (Problem {
            m: args.m,
            n: args.n,
            k: args.k,
        })),
        mixed_problem(i + 4) == mixed_problem(i),
        mixed_problem(4 * i) == (Problem { m: 1024, n: 1024, k: 1024 }),
        mixed_problem(4 * i + 1) == (Problem { m: 2048, n: 1024, k: 1024 }),
        mixed_problem(4 * i + 2) == (Problem { m: 1024, n: 2048, k: 1024 }),
        mixed_problem(4 * i + 3) == (Problem { m: 2048, n: 2048, k: 1024 }),
{
}

/// Tiles by name, and by the size of the product where it is left open: the large one for
/// products of at least 2048 rows and columns and 512 between them.
pub proof fn law_tiles_suit_products(p: Problem)
    ensures
        tile_of("auto"@, p) == (if p.m >= 2048 && p.n >= 2048 && p.k >= 512 {
            tile_of("256x256x64"@, p)
        } else {
            tile_of("128x128x128"@, p)
        }),
        tile_of("128x128x128"@, p) matches Ok(t) && t.bm == 128 && t.bn == 128 && t.bk == 128
            && t.num_ctas == 1 && t.occupancy == 1,
        tile_of("256x256x64"@, p) matches Ok(t) && t.bm == 256 && t.bn == 256 && t.bk == 64
            && t.num_ctas == 2 && t.occupancy == 1,
{
    reveal_strlit("auto");
    reveal_strlit("128x128x128");
    reveal_strlit("256x256x64");
    reveal_strlit("128,128,128");
    lemma_plain("auto"@);
    lemma_plain("128x128x128"@);
    lemma_plain("256x256x64"@);
    assert("256x256x64"@.len() == 10 && "auto"@.len() == 4);
}

/// Split weights take the bytes of their parts: of 256 elements 272 in Q8_0, which are those of
/// its blocks, 160 in Q4K and 274 in Q6K.
pub proof fn law_split_weights_take_their_parts(rows: usize, k: usize, blocks: int)
    requires
        k % 256 == 0,
        rows * k == 256 * blocks,
        blocks >= 0,
    ensures
        split_bytes(SplitShape { dtype: SplitType::Q8_0, rows, k }) == 8 * blocks * 34,
        split_bytes(SplitShape { dtype: SplitType::Q4K, rows, k }) == 160 * blocks,
        split_bytes(SplitShape { dtype: SplitType::Q6K, rows, k }) == 274 * blocks,
{
    let (r, c) = (rows as int, k as int);
    assert(32 * (r * (c / 32)) == r * c) by (nonlinear_arith)
        requires
            c == 32 * (c / 32),
    ;
    assert(r * (c / 32) * 2 == 2 * (r * (c / 32))) by (nonlinear_arith);
}

/// A benchmark cycles through as many copies of the weights as 64 MiB hold, from one to eight.
pub proof fn law_copies_defeat_the_cache(bytes: int)
    requires
        bytes > 0,
    ensures
        1 <= copies_of(bytes) <= 8,
        copies_of(bytes) > 1 ==> copies_of(bytes) * bytes <= 64 * 1024 * 1024,
        copies_of(bytes) < 8 ==> (copies_of(bytes) + 1) * bytes > 64 * 1024 * 1024,
{
    let n = 67108864int / bytes;
    let c = copies_of(bytes);
    assert(n * bytes <= 67108864 && 67108864 < (n + 1) * bytes) by (nonlinear_arith)
        requires
            n == 67108864int / bytes,
            bytes > 0,
    ;
    if c > 1 {
        assert(c * bytes <= 67108864) by (nonlinear_arith)
            requires
                c <= n,
                n * bytes <= 67108864,
                bytes > 0,
        ;
    }
    if c < 8 {
        assert((c + 1) * bytes > 67108864) by (nonlinear_arith)
            requires
                c >= n,
                67108864 < (n + 1) * bytes,
                bytes > 0,
        ;
    }
}

/// The blocks of a launch cover the rows exactly, each with the rows of its tile.
pub proof fn law_launches_cover_the_rows(s: SplitShape, occupancy: usize)
    ensures
        split_run(s, occupancy) matches Ok(c) ==> c.grid->0.x * row_tile(s.dtype) == s.rows
            && c.grid->0.y == 1 && c.grid->0.z == 1 && c.tile == seq![row_tile(s.dtype)] && c.ints
            == seq![s.rows] && s.k % 512 == 0,
        split_run(s, occupancy) is Ok <==> s.k % 512 == 0 && s.rows % (if s.dtype is Q8_0 {
            8usize
        } else {
            16
        }) == 0,
{
}

/// A launch over blocks as a file holds them has one block per row, and its rows follow each
/// other in all the bytes of the tensor.
pub proof fn law_rows_fill_the_tensor(t: BenchModel, raw: nat)
    requires
        t.rows > 0,
        t.weight_bytes % t.rows == 0,
    ensures
        quant_launch(t, raw) matches Ok(q) ==> q.rows == t.rows && q.k == t.k && q.grid == (Grid {
            x: t.rows,
            y: 1,
            z: 1,
        }) && q.rows * q.row_stride_bytes == t.weight_bytes && raw == t.weight_bytes,
        raw != t.weight_bytes ==> quant_launch(t, raw) == Err::<QuantLaunch, QuantBenchError>(
            QuantBenchError::ByteLength { got: raw as usize, expected: t.weight_bytes },
        ),
{
    let (w, r) = (t.weight_bytes as int, t.rows as int);
    assert(r * (w / r) == w && w / r >= 0) by (nonlinear_arith)
        requires
            r > 0,
            w >= 0,
            w % r == 0,
    ;
}

/// A product moves its weights, the vector and the result.
pub proof fn law_products_move_everything(weights: usize, rows: usize, k: usize)
    ensures
        moved_of(weights, rows, k) - weights == 2 * (rows + k),
{
}

proof fn lemma_split_extend(s: Seq<char>, t: Seq<char>, seps: Seq<char>)
    requires
        forall|i: int| 0 <= i < t.len() ==> !seps.contains(#[trigger] t[i]),
    ensures
        split_spec(s, seps).len() > 0,
        split_spec(s + t, seps) == split_spec(s, seps).update(
            split_spec(s, seps).len() - 1,
            split_spec(s, seps).last() + t,
        ),
    decreases s.len() + t.len(),
{
    let before = split_spec(s, seps);
    if t.len() == 0 {
        if s.len() > 0 {
            lemma_split_extend(s.drop_last(), Seq::empty(), seps);
        }
        assert(s + t =~= s);
        assert(before.last() + t =~= before.last());
        assert(before =~= before.update(before.len() - 1, before.last()));
    } else {
        let rest = t.drop_last();
        assert forall|i: int| 0 <= i < rest.len() implies !seps.contains(#[trigger] rest[i]) by {
            assert(rest[i] == t[i]);
        }
        lemma_split_extend(s, rest, seps);
        assert((s + t).drop_last() =~= s + rest);
        assert((s + t).last() == t[t.len() - 1]);
        assert((before.last() + rest).push(t.last()) =~= before.last() + t);
        assert(split_spec(s + t, seps) =~= before.update(before.len() - 1, before.last() + t));
    }
}

proof fn lemma_number_piece(n: usize)
    ensures
        trim_spec(decimal_text(n as nat)) == decimal_text(n as nat),
        decimal_text(n as nat).len() > 0,
        forall|i: int|
            0 <= i < decimal_text(n as nat).len() ==> !crate::bench_group::size_separators().contains(
                #[trigger] decimal_text(n as nat)[i],
            ),
{
    let d = decimal_text(n as nat);
    lemma_decimal_text_value(n as nat);
    assert(is_digit(d[0]) && is_digit(d[d.len() - 1]));
    law_trim(Seq::empty(), d, Seq::empty());
    assert forall|i: int| 0 <= i < d.len() implies !crate::bench_group::size_separators().contains(
        #[trigger] d[i],
    ) by {
        assert(is_digit(d[i]));
    }
}

/// A product that is written as its three sizes with a separator between them is read back.
pub proof fn law_products_are_read_back(p: Problem, a: char, b: char, place: usize)
    requires
        a == 'x' || a == 'X' || a == ',',
        b == 'x' || b == 'X' || b == ',',
    ensures
        shape_at(
            decimal_text(p.m as nat) + seq![a] + decimal_text(p.n as nat) + seq![b] + decimal_text(
                p.k as nat,
            ),
            place,
        ) == Ok::<Option<Problem>, GroupError>(Some(p)),
        shape_at(Seq::empty(), place) == Ok::<Option<Problem>, GroupError>(None),
{
    let seps = crate::bench_group::size_separators();
    let (m, n, k) = (
        decimal_text(p.m as nat),
        decimal_text(p.n as nat),
        decimal_text(p.k as nat),
    );
    let none = Seq::<char>::empty();
    lemma_number_piece(p.m);
    lemma_number_piece(p.n);
    lemma_number_piece(p.k);
    assert(seps[0] == 'x' && seps[1] == 'X' && seps[2] == ',');
    let one = m;
    let two = m + seq![a] + n;
    let three = two + seq![b] + k;
    lemma_split_extend(none, m, seps);
    assert(none + m =~= m);
    assert(split_spec(one, seps) =~= seq![m]);
    assert((one + seq![a]).drop_last() =~= one);
    assert((one + seq![a]).last() == a);
    assert(split_spec(one + seq![a], seps) =~= seq![m, none]);
    lemma_split_extend(one + seq![a], n, seps);
    assert(none + n =~= n);
    assert(split_spec(two, seps) =~= seq![m, n]);
    assert((two + seq![b]).drop_last() =~= two);
    assert((two + seq![b]).last() == b);
    assert(split_spec(two + seq![b], seps) =~= seq![m, n, none]);
    lemma_split_extend(two + seq![b], k, seps);
    assert(none + k =~= k);
    assert(split_spec(three, seps) =~= seq![m, n, k]);
    lemma_decimal_text_value(p.m as nat);
    lemma_decimal_text_value(p.k as nat);
    assert(three[0] == m[0] && is_digit(m[0]));
    assert(three.last() == k[k.len() - 1] && is_digit(k[k.len() - 1]));
    law_trim(none, three, none);
    reveal_with_fuel(fields, 4);
    let pieces = seq![m, n, k];
    assert(pieces.drop_last() =~= seq![m, n]);
    assert(seq![m, n].drop_last() =~= seq![m]);
    assert(seq![m].drop_last() =~= Seq::<Seq<char>>::empty());
    assert(fields(pieces) =~= pieces);
    law_decimal_round_trip(p.m);
    law_decimal_round_trip(p.n);
    law_decimal_round_trip(p.k);
    law_trim(none, none, none);
}

/// Products are read in the order in which they are written, and empty places count for
/// nothing.
pub proof fn law_lists_of_products_are_read_in_order(pieces: Seq<Seq<char>>, piece: Seq<char>)
    requires
        shapes_of(pieces) is Ok,
    ensures
        shape_at(piece, pieces.len() as usize) matches Ok(Some(p)) ==> shapes_of(pieces.push(piece))
            == Ok::<Seq<Problem>, GroupError>(shapes_of(pieces)->Ok_0.push(p)),
        shape_at(piece, pieces.len() as usize) matches Ok(None) ==> shapes_of(pieces.push(piece))
            == shapes_of(pieces),
        shape_at(piece, pieces.len() as usize) matches Err(e) ==> shapes_of(pieces.push(piece))
            == Err::<Seq<Problem>, GroupError>(e),
{
    assert(pieces.push(piece).drop_last() =~= pieces);
}

/// Models by their names; without a list, or with `all`, all shapes of a model run.
pub proof fn law_models_have_names(model: Seq<char>, size: ModelSize)
    ensures
        model_of("4b"@) == Some(ModelSize::B4),
        model_of("qwen3-4b"@) == Some(ModelSize::B4),
        model_of("32b"@) == Some(ModelSize::B32),
        model_of("qwen3-32b"@) == Some(ModelSize::B32),
        model_of(model) is None ==> shapes_in(model, "all"@) == Err::<Seq<BenchShape>, GemvError>(
            GemvError::UnknownModel,
        ),
        model_of(model) == Some(size) ==> shapes_in(model, "all"@) == Ok::<
            Seq<BenchShape>,
            GemvError,
        >(all_shapes(size)),
        model_of(model) == Some(size) ==> shapes_in(model, Seq::empty()) == shapes_in(
            model,
            "all"@,
        ),
{
    reveal_strlit("4b");
    reveal_strlit("32b");
    reveal_strlit("qwen3-4b");
    reveal_strlit("qwen3-32b");
    reveal_strlit("qwen3_4b");
    reveal_strlit("qwen3_32b");
    reveal_strlit("all");
    lemma_plain("4b"@);
    lemma_plain("32b"@);
    lemma_plain("qwen3-4b"@);
    lemma_plain("qwen3-32b"@);
    assert("4b"@.len() == 2 && "32b"@.len() == 3 && "qwen3-4b"@.len() == 8);
    assert("qwen3-32b"@.len() == 9 && "qwen3_4b"@.len() == 8 && "all"@.len() == 3);
    let none = Seq::<char>::empty();
    law_trim(none, "all"@, none);
    law_trim(none, none, none);
}

/// The tensor of a layer that a kind of projection is measured on.
pub open spec fn measured_tensor(kind: BenchKind) -> LayerTensor {
    match kind {
        BenchKind::AttnQ => LayerTensor::QProj,
        BenchKind::AttnK => LayerTensor::KProj,
        BenchKind::AttnV => LayerTensor::VProj,
        BenchKind::AttnOutput => LayerTensor::OProj,
        BenchKind::FfnGate => LayerTensor::GateProj,
        BenchKind::FfnUp => LayerTensor::UpProj,
        _ => LayerTensor::DownProj,
    }
}

/// A projection is measured on the tensor that the model loads for it.
pub proof fn law_projections_are_those_of_the_model(layer: usize, kind: BenchKind)
    requires
        !(kind is LmHead),
    ensures
        gguf_name(
            (ModelTensor::Layer { layer, tensor: measured_tensor(kind) }).name_text(),
            true,
        ) == Ok::<Seq<char>, LoadError>(projection_text(layer as nat, kind)),
{
    law_tensors_are_where_they_belong(layer, measured_tensor(kind), true);
    reveal_strlit("attn_q");
    reveal_strlit("attn_k");
    reveal_strlit("attn_v");
    reveal_strlit("attn_output");
    reveal_strlit("ffn_gate");
    reveal_strlit("ffn_up");
    reveal_strlit("ffn_down");
    reveal_strlit(".weight");
    reveal_strlit("attn_q.weight");
    reveal_strlit("attn_k.weight");
    reveal_strlit("attn_v.weight");
    reveal_strlit("attn_output.weight");
    reveal_strlit("ffn_gate.weight");
    reveal_strlit("ffn_up.weight");
    reveal_strlit("ffn_down.weight");
    let front = "blk."@ + decimal_text(layer as nat) + "."@;
    let whole = (match kind {
        BenchKind::AttnQ => "attn_q.weight"@,
        BenchKind::AttnK => "attn_k.weight"@,
        BenchKind::AttnV => "attn_v.weight"@,
        BenchKind::AttnOutput => "attn_output.weight"@,
        BenchKind::FfnGate => "ffn_gate.weight"@,
        BenchKind::FfnUp => "ffn_up.weight"@,
        _ => "ffn_down.weight"@,
    });
    assert(kind.text() + ".weight"@ =~= whole);
    assert(front + kind.text() + ".weight"@ =~= front + whole);
}

/// A quantized projection is listed with its type and its sizes, once, after those that were
/// listed before.
pub proof fn law_measured_tensors_are_listed(out: Seq<BenchModel>, kind: BenchKind, t: TensorModel)
    requires
        t.shape.len() == 2,
        t.dtype is Q8_0 || t.dtype is Q4K || t.dtype is Q5K || t.dtype is Q6K,
    ensures
        with_unique(out, kind, t) matches Ok(all) ==> {
            &&& exists|i: int| listed(all, kind, t.dtype, t.shape[0], t.shape[1], i)
            &&& all.len() <= out.len() + 1
            &&& forall|i: int| 0 <= i < out.len() ==> #[trigger] all[i] == out[i]
            &&& all.len() > out.len() ==> t.byte_size() == Ok::<usize, GgufError>(
                all.last().weight_bytes,
            )
        },
{
    if let Ok(all) = with_unique(out, kind, t) {
        if all.len() > out.len() {
            assert(listed(all, kind, t.dtype, t.shape[0], t.shape[1], out.len() as int));
        } else {
            let i = choose|i: int| listed(out, kind, t.dtype, t.shape[0], t.shape[1], i);
            assert(listed(all, kind, t.dtype, t.shape[0], t.shape[1], i));
        }
    }
}

} // verus!
