use grout::bench_attention::{
    args_fit, buffer_shapes, check_args, launch_attention, lpt_swizzle, parse_attn_mode,
    split_scratch_shapes, AttnArgs, AttnError, AttnMode,
};
use grout::bench_gemv::{
    rhs_rows, selected_mode, selected_shapes, traffic_bytes, BenchMode, GemvError,
};
use grout::bench_group::{
    build_buckets, choose_tile_config, launch_bucket, meta_rows, parse_shapes,
    problems_from_args, GroupArgs, GroupError, Problem, TensorRole,
};
use grout::bench_quant::{
    activation_value, copy_salt, discover_bench_tensors, kernel_name_for_dtype, moved_bytes,
    pattern_value, plan_quant_launch, q4k_scale, q4k_value, q6k_value, q8_0_value, run_shape,
    weight_bytes, weight_copies, QuantBenchError, SplitShape, SplitType,
};
use grout::dequant::GgmlType;
use grout::gguf::{Content, TensorInfo, Value, Version};
use grout::kernel::{Grid, Hint, Kernel};
use grout::names::NameMap;

fn p(m: usize, n: usize, k: usize) -> Problem {
    Problem { m, n, k }
}

#[test]
fn shapes_are_read_from_a_list() {
    assert_eq!(
        parse_shapes(" 1x2x3 ; 4X5,6;;+7,8 ,9").unwrap(),
        vec![p(1, 2, 3), p(4, 5, 6), p(7, 8, 9)]
    );
    assert_eq!(parse_shapes(" ; "), Err(GroupError::NoProblems));
    assert_eq!(
        parse_shapes("1x2x3;4x5"),
        Err(GroupError::ShapeParts { place: 1, parts: 2 })
    );
    assert_eq!(parse_shapes("ax2x3"), Err(GroupError::BadM { place: 0 }));
    assert_eq!(parse_shapes("1x-2x3"), Err(GroupError::BadN { place: 0 }));
    assert_eq!(parse_shapes(";1x2xk"), Err(GroupError::BadK { place: 1 }));
}

#[test]
fn problems_come_in_turn() {
    let mut args = GroupArgs {
        m: 1,
        n: 2,
        k: 3,
        groups: 5,
        shapes: None,
        heterogeneous: true,
    };
    assert_eq!(
        problems_from_args(&args).unwrap(),
        vec![
            p(1024, 1024, 1024),
            p(2048, 1024, 1024),
            p(1024, 2048, 1024),
            p(2048, 2048, 1024),
            p(1024, 1024, 1024)
        ]
    );
    args.heterogeneous = false;
    assert_eq!(problems_from_args(&args).unwrap(), vec![p(1, 2, 3); 5]);
    args.shapes = Some("7x8x9");
    assert_eq!(problems_from_args(&args).unwrap(), vec![p(7, 8, 9)]);
}

#[test]
fn products_of_one_tile_run_together() {
    let problems = [
        p(2048, 2048, 512),
        p(1024, 1024, 1024),
        p(4096, 2048, 1024),
    ];
    let b = build_buckets(" Auto ", &problems).unwrap();
    assert_eq!(b.len(), 2);
    assert_eq!(b[0].problems, vec![problems[0], problems[2]]);
    assert_eq!((b[0].cfg.bm, b[0].cfg.bk), (256, 64));
    assert_eq!(b[1].problems, vec![problems[1]]);
    let call = launch_bucket(&b[0], 101);
    assert_eq!(call.kernel, Kernel::GroupGemm);
    assert_eq!(call.generics, vec![256, 256, 64, 50]);
    assert_eq!(call.ints, vec![2]);
    assert_eq!(
        call.hint,
        Hint::Clusters {
            occupancy: 1,
            ctas: 2,
            divisor: 16
        }
    );
    assert_eq!(launch_bucket(&b[0], 1).grid, Some(Grid { x: 1, y: 1, z: 1 }));
    assert!(matches!(
        build_buckets("auto", &[p(100, 128, 128)]),
        Err(GroupError::NotDivisible { .. })
    ));
    assert!(matches!(
        build_buckets("64x64", &problems),
        Err(GroupError::UnknownTile)
    ));
    assert_eq!(
        choose_tile_config("128,128,128", problems[0]).unwrap().bn,
        128
    );
}

#[test]
fn matrices_are_described_in_eight_numbers() {
    let rows = meta_rows(&[p(1, 2, 3), p(4, 5, 6)], TensorRole::B);
    assert_eq!(
        rows,
        vec![3, 2, 2, 0, 0, 0, 0, 0, 6, 5, 5, 0, 0, 0, 0, 0]
    );
    assert_eq!(&meta_rows(&[p(1, 2, 3)], TensorRole::A)[..3], &[1, 3, 3]);
    assert_eq!(&meta_rows(&[p(1, 2, 3)], TensorRole::C)[..3], &[1, 2, 2]);
}

#[test]
fn shapes_of_models_are_known_by_name() {
    let all = selected_shapes("4B", "all").unwrap();
    assert_eq!(all.len(), 5);
    assert_eq!(all[4].projection.name(), "lm_head");
    assert_eq!((all[4].m, all[4].k), (151936, 2560));
    let some = selected_shapes("qwen3-32b", "gate, ,q_only").unwrap();
    assert_eq!((some[0].m, some[0].k), (51200, 5120));
    assert_eq!((some[1].m, some[1].k), (8192, 5120));
    assert_eq!(
        selected_shapes("4b", "down,q"),
        Err(GemvError::UnknownShape { place: 1 })
    );
    assert_eq!(selected_shapes("4b", ","), Err(GemvError::NoShapes));
    assert_eq!(selected_shapes("7b", "all"), Err(GemvError::UnknownModel));
    assert_eq!(selected_mode(" GEMM"), Ok(BenchMode::Gemm));
    assert_eq!(selected_mode("x"), Err(GemvError::UnknownMode));
    assert_eq!(rhs_rows(BenchMode::Gemv, 9), 1);
    assert_eq!(rhs_rows(BenchMode::Gemm, 9), 9);
    let s = selected_shapes("4b", "o").unwrap()[0];
    assert_eq!(
        traffic_bytes(s, 2),
        (
            2560 * 4096 * 2,
            (2560 * 4096 + 2 * 4096 + 2 * 2560) * 2
        )
    );
}

const ARGS: AttnArgs = AttnArgs {
    q_len: 100,
    q_heads: 64,
    kv_heads: 8,
    head_dim: 128,
    bm: 32,
    bn: 16,
    group: None,
    swizzle: None,
    schedule: 1,
    mask_split: 0,
    kv_splits: 4,
    merge_chunk_d: 16,
    latency: 3,
    occupancy: 2,
    iters: 1,
};

#[test]
fn attention_is_measured_in_four_ways() {
    let run = |mode| launch_attention(&ARGS, mode, true, true).unwrap();
    let c = run(AttnMode::Causal);
    assert_eq!(c[0].kernel, Kernel::FmhaPrefillCausal);
    assert_eq!(c[0].generics, vec![32, 16, 128, 1, 0, 3]);
    let c = run(AttnMode::Gqa);
    assert_eq!(c[0].tile, vec![32, 8, 128]);
    assert_eq!(c[0].generics, vec![32, 16, 128, 8, 256, 1, 0, 3]);
    let c = run(AttnMode::GqaLpt);
    assert_eq!(c[0].ints, vec![8, 100, 100, 0, 4, 8, 8, 1, 1]);
    assert_eq!(c[0].grid, Some(Grid { x: 32, y: 1, z: 1 }));
    let c = run(AttnMode::GqaLptSplit);
    assert_eq!(c.len(), 2);
    assert_eq!(c[0].generics, vec![32, 16, 128, 8, 256, 0, 4, 1024, 3, 1]);
    assert_eq!(c[1].grid, Some(Grid { x: 32, y: 8, z: 1 }));
    assert_eq!(split_scratch_shapes(&ARGS), Ok((32, 1024)));
    let (_, _, partial) = buffer_shapes(&ARGS, AttnMode::GqaLptSplit).unwrap();
    let (att, lse) = partial.unwrap();
    assert_eq!(att, vec![32, 1024, 128]);
    assert_eq!(lse, vec![32, 1024]);
    assert_eq!(
        launch_attention(&ARGS, AttnMode::GqaLptSplit, false, true).unwrap_err(),
        AttnError::NoPartial
    );
    assert_eq!(
        launch_attention(&ARGS, AttnMode::GqaLptSplit, true, false).unwrap_err(),
        AttnError::NoPartialSums
    );
}

#[test]
fn attention_sizes_are_checked_in_order() {
    assert_eq!(check_args(&ARGS), Ok(()));
    let bad = |f: fn(&mut AttnArgs)| {
        let mut a = ARGS;
        f(&mut a);
        check_args(&a).unwrap_err()
    };
    assert_eq!(bad(|a| a.iters = 0), AttnError::NoIterations);
    assert_eq!(bad(|a| a.q_len = 0), AttnError::NoQueries);
    assert_eq!(bad(|a| a.q_heads = 0), AttnError::NoQueryHeads);
    assert_eq!(bad(|a| a.kv_heads = 0), AttnError::NoKeyHeads);
    assert_eq!(bad(|a| a.kv_heads = 7), AttnError::HeadGrouping);
    assert_eq!(bad(|a| a.head_dim = 0), AttnError::NoHeadDim);
    assert_eq!(bad(|a| a.bn = 0), AttnError::NoTile);
    assert_eq!(bad(|a| a.schedule = 4), AttnError::Schedule);
    assert_eq!(bad(|a| a.mask_split = 2), AttnError::MaskSplit);
    assert_eq!(bad(|a| a.kv_splits = 0), AttnError::NoSplits);
    assert_eq!(bad(|a| a.merge_chunk_d = 3), AttnError::MergeChunk);
    assert_eq!(parse_attn_mode(" GQA-LPT "), Ok(AttnMode::GqaLpt));
    assert_eq!(parse_attn_mode("flash"), Err(AttnError::UnknownMode));
    let mut a = ARGS;
    a.group = Some(3);
    assert_eq!(
        launch_attention(&a, AttnMode::Gqa, true, true).unwrap_err(),
        AttnError::Group { group_size: 8 }
    );
    a.swizzle = Some(99);
    assert_eq!(lpt_swizzle(&a, 8), 8);
    a.swizzle = Some(0);
    assert_eq!(lpt_swizzle(&a, 8), 1);
    // 50 MiB hold four heads of 20000 tokens.
    a.swizzle = None;
    a.q_len = 20000;
    assert_eq!(lpt_swizzle(&a, 8), 4);
}

fn content(blocks: Option<Value>, tensors: Vec<(&str, GgmlType, Vec<usize>)>) -> Content {
    let mut metadata = NameMap::new();
    if let Some(v) = blocks {
        metadata.insert("qwen3.block_count".to_string(), v);
    }
    let mut tensor_infos = NameMap::new();
    for (name, dtype, shape) in tensors {
        tensor_infos.insert(
            name.to_string(),
            TensorInfo {
                name: name.to_string(),
                dtype,
                shape,
                offset: 0,
            },
        );
    }
    Content {
        version: Version::V3,
        metadata,
        tensor_infos,
        tensor_data_offset: 0,
    }
}

#[test]
fn tensors_are_measured_once_per_use_type_and_shape() {
    let c = content(
        Some(Value::U32(2)),
        vec![
            ("blk.0.attn_q.weight", GgmlType::Q4K, vec![16, 256]),
            ("blk.1.attn_q.weight", GgmlType::Q4K, vec![16, 256]),
            ("blk.1.attn_k.weight", GgmlType::Q4K, vec![16, 256]),
            ("blk.1.ffn_up.weight", GgmlType::F16, vec![16, 256]),
            ("token_embd.weight", GgmlType::Q6K, vec![32, 256]),
        ],
    );
    let t = discover_bench_tensors(&c).unwrap();
    let seen: Vec<(&str, &str)> = t.iter().map(|t| (t.kind.name(), t.name.as_str())).collect();
    assert_eq!(
        seen,
        vec![
            ("attn_q", "blk.0.attn_q.weight"),
            ("attn_k", "blk.1.attn_k.weight"),
            ("lm_head", "token_embd.weight")
        ]
    );
    assert_eq!(t[2].weight_bytes, 32 * 210);
    let l = plan_quant_launch(&t[2], 32 * 210).unwrap();
    assert_eq!((l.rows, l.k, l.row_stride_bytes), (32, 256, 210));
    assert_eq!((l.threads, l.shared_bytes), (256, 1024));
    assert_eq!(
        plan_quant_launch(&t[2], 1),
        Err(QuantBenchError::ByteLength {
            got: 1,
            expected: 6720
        })
    );
    assert_eq!(kernel_name_for_dtype(GgmlType::Q8_0), Ok("q8_0_gemv"));
    assert!(kernel_name_for_dtype(GgmlType::F16).is_err());
}

#[test]
fn files_without_quantized_tensors_are_refused() {
    let f16 = || vec![("output.weight", GgmlType::F16, vec![4, 4])];
    assert_eq!(
        discover_bench_tensors(&content(Some(Value::U8(1)), f16())).unwrap_err(),
        QuantBenchError::NoTensors
    );
    assert!(discover_bench_tensors(&content(None, f16())).is_err());
    assert!(discover_bench_tensors(&content(Some(Value::U8(1)), vec![])).is_err());
    let flat = vec![("output.weight", GgmlType::Q6K, vec![256])];
    assert_eq!(
        discover_bench_tensors(&content(Some(Value::U8(1)), flat)).unwrap_err(),
        QuantBenchError::Rank { rank: 1 }
    );
}

#[test]
fn split_weights_are_measured_in_tiles() {
    let s = |dtype, rows, k| SplitShape { dtype, rows, k };
    let c = run_shape(s(SplitType::Q4K, 32, 1024), 2).unwrap();
    assert_eq!(c.kernel, Kernel::GemvQ4KSoa);
    assert_eq!(c.grid, Some(Grid { x: 2, y: 1, z: 1 }));
    assert_eq!(c.generics, vec![512, 32, 1]);
    let c = run_shape(s(SplitType::Q8_0, 8, 512), 4).unwrap();
    assert_eq!(c.generics, vec![512, 16, 1]);
    assert_eq!(
        run_shape(s(SplitType::Q6K, 8, 512), 1).unwrap_err(),
        QuantBenchError::RowsTile { rows: 8 }
    );
    assert_eq!(
        run_shape(s(SplitType::Q6K, 16, 256), 1).unwrap_err(),
        QuantBenchError::ColumnsTile { cols: 256 }
    );
    assert_eq!(weight_bytes(s(SplitType::Q4K, 16, 512)), 4096 + 1024);
    assert_eq!(weight_bytes(s(SplitType::Q6K, 16, 512)), 8192 + 512 + 64);
    assert_eq!(weight_bytes(s(SplitType::Q8_0, 16, 512)), 8192 + 512);
    assert_eq!(weight_copies(1), 8);
    assert_eq!(weight_copies(20 * 1024 * 1024), 3);
    assert_eq!(weight_copies(usize::MAX), 1);
    assert_eq!(moved_bytes(100, 3, 4), 114);
}

#[test]
fn made_up_weights_repeat() {
    assert_eq!(q8_0_value(0, 0), -63);
    assert_eq!(q8_0_value(100, 63), -58);
    assert_eq!(q6k_value(62, 1), -31);
    assert_eq!(q4k_value(250, 2), 1);
    assert_eq!(q4k_scale(60, 5), (1, 11));
    assert_eq!(copy_salt(3), 23757);
    assert_eq!(activation_value(252), -124);
    assert_eq!(pattern_value(3, 2), (111 + 34) % 101 - 50);
}

#[test]
fn attention_is_measured_on_countable_sizes() {
    assert!(args_fit(&ARGS));
    assert!(!args_fit(&AttnArgs {
        q_len: usize::MAX,
        ..ARGS
    }));
    assert!(!args_fit(&AttnArgs {
        kv_splits: usize::MAX / 2,
        ..ARGS
    }));
}
