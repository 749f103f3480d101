use grout::attention::{
    attend_seq, kv_cache_update, qk_norm_rope_kv_prefill, read_attn_knobs, rope_seq_into,
    AttnDims, AttnEnv, PositionInput,
};
use grout::cublas::{
    gemm_dims, parse_gemm_algo, selected_fast_compute_type, selected_gemm_dispatch, ComputeType,
    FastPath, GemmAlgo, GemmDims, StreamKey,
};
use grout::dequant::GgmlType;
use grout::gemm::{embedding_batch_into, gemm_into, gemm_row_slice_into};
use grout::kernel::{
    Grid, Hint, Kernel, KernelKind, KernelWarmRegistry, LaunchError, TILE_KERNEL_KINDS,
};
use grout::pointwise::{
    add_2d_into, add_rms_norm_into, argmax_blocks, gather_row_into, rms_norm_into,
    silu_mul_2d_into, slice_cols_into, DeviceCopy,
};
use grout::products::{
    decode_gemv, dequant_weight_to_scratch, gemv_into, gemv_quant_part, quant_gemv_part_record,
    Part, Product, Soa,
};
use grout::weights::{DeviceBuffer, MatrixWeight, Weight};

fn buffer(id: usize, shape: &[i32]) -> DeviceBuffer {
    DeviceBuffer {
        id,
        shape: shape.to_vec(),
        size: shape.iter().product::<i32>() as usize,
    }
}

fn half(rows: i32, cols: i32) -> MatrixWeight {
    MatrixWeight::single(Weight::half(buffer(1, &[rows, cols])).unwrap())
}

fn q4k(rows: usize, cols: usize) -> Weight {
    let bytes = rows * cols / 256 * 144;
    Weight::quantized(GgmlType::Q4K, buffer(2, &[bytes as i32]), vec![rows, cols]).unwrap()
}

fn q8_0(rows: usize, cols: usize) -> Weight {
    Weight::q8_0_soa(
        buffer(3, &[(rows * cols / 32 * 34) as i32]),
        buffer(4, &[rows as i32, cols as i32]),
        buffer(5, &[rows as i32, (cols / 32) as i32]),
        vec![rows, cols],
    )
    .unwrap()
}

#[test]
fn one_row_of_halves_is_a_library_product() {
    let m = half(6, 4);
    match gemv_into(&m, &[4], &[6]).unwrap() {
        Product::Library { dims, byte_offset } => {
            assert_eq!(dims, GemmDims { m: 6, n: 1, k: 4 });
            assert_eq!(byte_offset, 0);
        }
        other => panic!("{other:?}"),
    }
    match gemm_into(&m, &[5, 4], &[5, 6], None).unwrap() {
        Product::Library { dims, .. } => assert_eq!(dims, GemmDims { m: 6, n: 5, k: 4 }),
        other => panic!("{other:?}"),
    }
    assert_eq!(
        gemv_into(&m, &[5], &[6]).unwrap_err(),
        LaunchError::InputShape
    );
    assert_eq!(
        gemv_into(&m, &[4], &[5]).unwrap_err(),
        LaunchError::OutputShape
    );
    assert_eq!(
        gemm_into(&m, &[5, 4, 1], &[5, 6], None).unwrap_err(),
        LaunchError::Rank { rank: 3 }
    );
}

#[test]
fn row_slices_begin_inside_the_matrix() {
    let m = half(6, 4);
    match gemm_row_slice_into(&m, 2, 3, &[5, 4], &[5, 3], None).unwrap() {
        Product::Library { dims, byte_offset } => {
            assert_eq!(dims, GemmDims { m: 3, n: 5, k: 4 });
            assert_eq!(byte_offset, 2 * 4 * 2);
        }
        other => panic!("{other:?}"),
    }
    assert_eq!(
        gemm_row_slice_into(&m, 2, 3, &[5, 4], &[5, 4], None).unwrap_err(),
        LaunchError::OutputShape
    );
    let m = MatrixWeight::row_concat(vec![q4k(3, 512), q8_0(8, 512)]).unwrap();
    assert!(gemm_row_slice_into(&m, 0, 3, &[5, 512], &[5, 3], Some(9999)).is_ok());
    assert_eq!(
        gemm_row_slice_into(&m, 0, 11, &[5, 512], &[5, 11], Some(9999)).unwrap_err(),
        LaunchError::PartialProjection
    );
}

#[test]
fn quantized_rows_are_multiplied_block_by_block() {
    let m = MatrixWeight::single(q4k(3, 512));
    match gemv_into(&m, &[512], &[3]).unwrap() {
        Product::Direct { call } => {
            assert_eq!(call.kernel, Kernel::GemvQ4K);
            assert_eq!(call.generics, vec![512]);
            assert_eq!(call.grid, Some(Grid { x: 3, y: 1, z: 1 }));
        }
        other => panic!("{other:?}"),
    }
    let m = MatrixWeight::row_concat(vec![q4k(3, 512), q8_0(8, 512)]).unwrap();
    match gemv_into(&m, &[512], &[11]).unwrap() {
        Product::Parts { steps } => {
            assert_eq!(
                steps.iter().map(|s| (s.offset, s.rows)).collect::<Vec<_>>(),
                vec![(0, 3), (3, 8)]
            );
            assert_eq!(steps[1].call.kernel, Kernel::GemvQ8_0Soa);
            assert_eq!(steps[1].call.generics, vec![512, 16, 1]);
            assert_eq!(steps[1].call.hint, Hint::Occupancy(4));
        }
        other => panic!("{other:?}"),
    }
    match decode_gemv(&m, &[11], 8).unwrap() {
        Product::Parts { steps } => {
            assert_eq!(steps.len(), 2);
            assert_eq!(steps[0].call.kernel, Kernel::GemvQ4KInto);
        }
        other => panic!("{other:?}"),
    }
    assert_eq!(
        decode_gemv(&m, &[11], 7).unwrap_err(),
        LaunchError::ScratchTooSmall { need: 8, have: 7 }
    );
    assert_eq!(
        gemm_into(&m, &[2, 512], &[2, 11], Some(9999)).unwrap_err(),
        LaunchError::RowConcatProduct
    );
}

#[test]
fn quantized_products_of_many_rows_unpack_first() {
    let m = MatrixWeight::single(q4k(3, 512));
    match gemm_into(&m, &[2, 512], &[2, 3], Some(1536)).unwrap() {
        Product::Unpacked { call, dims } => {
            assert_eq!(call.kernel, Kernel::DequantQ4K);
            assert_eq!(call.tile, vec![32]);
            assert_eq!(call.ints, vec![48]);
            assert_eq!(dims, GemmDims { m: 3, n: 2, k: 512 });
        }
        other => panic!("{other:?}"),
    }
    assert_eq!(
        gemm_into(&m, &[2, 512], &[2, 3], None).unwrap_err(),
        LaunchError::NoScratch
    );
    assert_eq!(
        gemm_into(&m, &[2, 512], &[2, 3], Some(1535)).unwrap_err(),
        LaunchError::ScratchTooSmall {
            need: 1536,
            have: 1535
        }
    );
}

fn part(dtype: GgmlType, soa: Soa, rows: usize, cols: usize) -> Part {
    Part {
        dtype,
        quantized: true,
        native: true,
        soa,
        rows,
        cols,
    }
}

#[test]
fn split_blocks_have_kernels_of_their_own() {
    let c = gemv_quant_part(part(GgmlType::Q6K, Soa::Q6K, 16, 512), 512, &[16]).unwrap();
    assert_eq!(c.kernel, Kernel::GemvQ6KSoa);
    assert_eq!(c.generics, vec![512, 32, 2, 1]);
    assert_eq!(c.hint, Hint::Occupancy(1));
    assert_eq!(c.grid, Some(Grid { x: 2, y: 1, z: 1 }));
    let c = gemv_quant_part(part(GgmlType::Q4K, Soa::Q4K, 16, 512), 512, &[16]).unwrap();
    assert_eq!(c.generics, vec![256, 16, 1]);
    assert_eq!(c.tile, vec![16]);
    assert_eq!(
        gemv_quant_part(part(GgmlType::Q8_0, Soa::Q8_0, 8, 96), 96, &[8]).unwrap_err(),
        LaunchError::Columns { cols: 96 }
    );
    assert_eq!(
        gemv_quant_part(part(GgmlType::Q8_0, Soa::Q8_0, 7, 512), 512, &[7]).unwrap_err(),
        LaunchError::Rows { rows: 7 }
    );
    assert_eq!(
        gemv_quant_part(part(GgmlType::Q8_0, Soa::Whole, 8, 512), 512, &[8]).unwrap_err(),
        LaunchError::Layout
    );
    let mut p = part(GgmlType::F16, Soa::Whole, 8, 512);
    p.quantized = false;
    assert_eq!(
        gemv_quant_part(p, 512, &[8]).unwrap_err(),
        LaunchError::NotQuantized
    );
    assert!(quant_gemv_part_record(part(GgmlType::Q5K, Soa::Whole, 4, 256)).is_ok());
    let c = dequant_weight_to_scratch(part(GgmlType::Q6K, Soa::Q6K, 2, 256), 512).unwrap();
    assert_eq!(c.kernel, Kernel::DequantQ6KSoa);
    assert_eq!(c.ints, vec![16]);
}

#[test]
fn embeddings_are_gathered_by_type() {
    let c = embedding_batch_into(&half(100, 64), 64, 1024, 3, &[3, 64]).unwrap();
    assert_eq!(c.kernel, Kernel::EmbeddingBatch);
    assert_eq!(c.generics, vec![64, 1024]);
    let m = MatrixWeight::single(q4k(4, 256));
    let c = embedding_batch_into(&m, 256, 1024, 3, &[3, 256]).unwrap();
    assert_eq!(c.kernel, Kernel::EmbedGatherQ4K);
    assert_eq!(c.tile, vec![1, 32]);
    assert_eq!(
        embedding_batch_into(&m, 128, 1024, 3, &[3, 128]).unwrap_err(),
        LaunchError::InputShape
    );
}

#[test]
fn elementwise_kernels_need_equal_shapes() {
    let c = add_2d_into(&[2, 8], &[2, 8], &[2, 8]).unwrap();
    assert_eq!(c.kernel, Kernel::Add2d);
    assert_eq!(c.tile, vec![1, 1024]);
    assert_eq!(
        add_2d_into(&[2, 8], &[2, 9], &[2, 8]).unwrap_err(),
        LaunchError::InputShape
    );
    assert_eq!(
        silu_mul_2d_into(&[8], &[8], &[8]).unwrap_err(),
        LaunchError::Rank { rank: 1 }
    );
    assert_eq!(
        silu_mul_2d_into(&[2, 8], &[2, 8], &[8, 2]).unwrap_err(),
        LaunchError::OutputShape
    );
}

#[test]
fn norms_work_on_rows() {
    let p = rms_norm_into(&[3, 1024], 1024, &[3, 1024], 512).unwrap();
    assert_eq!(p.rows, 3);
    assert!(!p.copies);
    assert_eq!(p.call.generics, vec![1024, 512]);
    // Short rows have their own block, and a block that does not divide falls back.
    assert_eq!(
        rms_norm_into(&[4, 128], 128, &[4, 128], 512)
            .unwrap()
            .call
            .generics,
        vec![128, 128]
    );
    assert_eq!(
        rms_norm_into(&[1, 1536], 1536, &[1, 1536], 1024)
            .unwrap()
            .call
            .generics,
        vec![1536, 512]
    );
    let p = add_rms_norm_into(&[8], &[8], 8, &[8], &[8], 2048).unwrap();
    assert!(p.copies);
    assert_eq!(p.rows, 1);
    assert!(add_rms_norm_into(&[2, 8], &[1, 8], 8, &[2, 8], &[2, 8], 2048).is_err());
}

#[test]
fn rows_and_columns_are_cut_out() {
    let c = gather_row_into(&[5, 64], 4, &[64]).unwrap();
    assert_eq!(c.ints, vec![4]);
    assert!(gather_row_into(&[5, 64], 5, &[64]).is_err());
    let copy = |from_byte, to_byte| DeviceCopy {
        from_byte,
        to_byte,
        bytes: 40,
    };
    assert_eq!(
        slice_cols_into(&[1, 100], 10, 20),
        Ok(vec![copy(20, 0)])
    );
    assert_eq!(
        slice_cols_into(&[3, 100], 10, 20),
        Ok(vec![copy(20, 0), copy(220, 40), copy(420, 80)])
    );
    assert_eq!(slice_cols_into(&[1], 10, 20), Ok(vec![copy(20, 0)]));
    assert_eq!(slice_cols_into(&[0, 100], 10, 20), Ok(vec![]));
    assert_eq!(
        slice_cols_into(&[2, 3, 4], 10, 20),
        Err(LaunchError::Rank { rank: 3 })
    );
}

#[test]
fn the_greatest_is_found_block_by_block() {
    let (c, n) = argmax_blocks(1000, 128).unwrap();
    assert_eq!(n, 8);
    assert_eq!(c.ints, vec![1000]);
    assert_eq!(argmax_blocks(0, 128).unwrap_err(), LaunchError::Empty);
}

const DIMS: AttnDims = AttnDims {
    heads: 32,
    kv_heads: 8,
    head_dim: 128,
    max_seq_len: 4096,
};

const NO_ENV: AttnEnv<'static> = AttnEnv {
    bn_decode: None,
    bn_prefill: None,
    bm_prefill: None,
    gqa_lpt: None,
    gqa: None,
    prefill: None,
    gqa_group: None,
    latency: None,
    occupancy: None,
    schedule: None,
    mask_split: None,
    l2_bytes: None,
    swizzle: None,
};

#[test]
fn attention_by_default_uses_the_prefill_kernel() {
    let k = read_attn_knobs(NO_ENV);
    let shape = [10, 32, 128];
    let c = attend_seq(&shape, PositionInput::Host(6), &shape, DIMS, true, k, true).unwrap();
    assert_eq!(c.kernel, Kernel::FmhaPrefillCausal);
    assert_eq!(c.tile, vec![16, 1, 128]);
    assert_eq!(c.ints, vec![4, 16, 6]);
    assert_eq!(c.generics, vec![16, 32, 128, 1, 0, 2]);
    assert_eq!(c.hint, Hint::Occupancy(2));
    let shape = [1, 32, 128];
    let c = attend_seq(&shape, PositionInput::Device(&[1]), &shape, DIMS, true, k, true).unwrap();
    assert_eq!(c.kernel, Kernel::FmhaCausal);
    assert_eq!(
        attend_seq(&shape, PositionInput::Host(0), &shape, DIMS, false, k, true).unwrap_err(),
        LaunchError::MissingCache
    );
}

#[test]
fn long_prompts_group_heads_on_new_devices() {
    let k = read_attn_knobs(NO_ENV);
    let shape = [2048, 32, 128];
    let run = |sm100| attend_seq(&shape, PositionInput::Host(0), &shape, DIMS, true, k, sm100);
    assert_eq!(run(false).unwrap().kernel, Kernel::FmhaPrefillCausal);
    let c = run(true).unwrap();
    assert_eq!(c.kernel, Kernel::FmhaPrefillGqaLpt);
    // 128 blocks of 16 queries, 8 groups of 4 heads, all 8 in the cache at once.
    assert_eq!(c.ints, vec![4, 2048, 2048, 0, 128, 8, 8, 1, 1]);
    assert_eq!(c.grid, Some(Grid { x: 1024, y: 1, z: 1 }));
    let mut env = NO_ENV;
    env.gqa_lpt = Some("0");
    env.gqa = Some("1");
    env.gqa_group = Some("3");
    let k = read_attn_knobs(env);
    assert_eq!(
        attend_seq(&shape, PositionInput::Host(0), &shape, DIMS, true, k, true).unwrap_err(),
        LaunchError::Group { group: 3 }
    );
}

#[test]
fn caches_are_written_inside_their_bounds() {
    let kv = [3, 8, 128];
    let c = kv_cache_update(&kv, &kv, PositionInput::Host(5), DIMS, true, 16, 32).unwrap();
    assert_eq!(c.ints, vec![5, 3]);
    assert_eq!(
        kv_cache_update(&kv, &kv, PositionInput::Host(4094), DIMS, true, 16, 32).unwrap_err(),
        LaunchError::Range {
            start: 4094,
            end: 4097,
            limit: 4096
        }
    );
    assert_eq!(
        kv_cache_update(&kv, &kv, PositionInput::Device(&[1]), DIMS, true, 16, 32).unwrap_err(),
        LaunchError::ManyTokens { tokens: 3 }
    );
    let q = [3, 32, 128];
    let cache = [8, 4096, 128];
    let c = qk_norm_rope_kv_prefill(
        &q,
        &kv,
        &kv,
        &q,
        PositionInput::Host(0),
        DIMS,
        Some(&cache),
        Some(&cache),
    )
    .unwrap();
    assert_eq!(c.grid, Some(Grid { x: 3, y: 40, z: 1 }));
    let c = rope_seq_into(&q, PositionInput::Host(9), &q, 128).unwrap();
    assert_eq!(c.ints, vec![9]);
    assert_eq!(
        rope_seq_into(&q, PositionInput::Device(&[2]), &q, 128).unwrap_err(),
        LaunchError::PositionShape
    );
}

#[test]
fn algorithms_are_named_in_many_ways() {
    assert_eq!(parse_gemm_algo(" Default "), GemmAlgo::Default);
    assert_eq!(parse_gemm_algo("tensor_op"), GemmAlgo::DefaultTensorOp);
    assert_eq!(parse_gemm_algo("7"), GemmAlgo::TensorOp(7));
    assert_eq!(parse_gemm_algo("algo12"), GemmAlgo::TensorOp(12));
    assert_eq!(parse_gemm_algo("ALGO3_TENSOR_OP"), GemmAlgo::TensorOp(3));
    assert_eq!(parse_gemm_algo("16"), GemmAlgo::DefaultTensorOp);
}

#[test]
fn half_accumulation_depends_on_the_device() {
    let t = |cap, m, n, k| selected_fast_compute_type(cap, m, n, k, None, None);
    assert_eq!(t(Some((8, 9)), 10, 10, 10), ComputeType::Half);
    assert_eq!(t(Some((10, 0)), 10, 10, 10), ComputeType::SingleFastHalf);
    assert_eq!(t(Some((10, 0)), 51200, 1, 5120), ComputeType::Half);
    assert_eq!(
        selected_fast_compute_type(None, 10, 1, 1, Some("1"), Some("9")),
        ComputeType::SingleFastHalf
    );
    let d = selected_gemm_dispatch(None, 10, 1, 1, Some("0"), None, Some("5"));
    assert_eq!(d.compute_type, ComputeType::SingleFastHalf);
    assert_eq!(d.algo, GemmAlgo::TensorOp(5));
    assert_eq!(
        gemm_dims(1 << 31, 1, 1).unwrap_err(),
        LaunchError::TooLarge
    );
}

#[test]
fn a_failed_fast_product_bars_its_stream() {
    let a = StreamKey {
        device: 0,
        stream: 1,
    };
    let b = StreamKey {
        device: 0,
        stream: 2,
    };
    let mut p = FastPath::Unknown;
    assert!(p.admits(a));
    p.note(a, true);
    assert!(p.admits(a));
    p.note(a, false);
    assert!(!p.admits(a));
    assert!(p.admits(b));
}

#[test]
fn every_kernel_family_is_warmed() {
    let mut r = KernelWarmRegistry::new();
    assert_eq!(TILE_KERNEL_KINDS.len(), KernelKind::COUNT);
    for (i, kind) in TILE_KERNEL_KINDS.into_iter().enumerate() {
        assert_eq!(kind.idx(), i);
        assert!(!r.all_warmed());
        assert!(!r.is_warmed(kind));
        r.mark_warmed(kind);
        assert!(r.is_warmed(kind));
    }
    assert!(r.all_warmed());
}
