use grout::bench_group::{ensure_tile_divisible, GroupError, Problem, TileConfig};
use grout::dequant::signed_byte;
use grout::gguf::{
    product_of_dims, read_value, Float, GgufError, Reader, Value, ValueType,
    GGUF_MAX_VALUE_DEPTH,
};
use grout::graph::{Op, TensorRef, TensorSpec, ValueId, WeightRef};
use grout::kernel::{compile_options_with_occupancy, Hint};
use grout::pool_plan::{decrement_live_count, increment_live_count, SpecCounts};
use grout::products::{q4k_soa_gemv_generics, q6k_soa_gemv_generics};
use grout::sampling::{order_of_half, order_of_single};
use grout::shard::{cast_to_f16, safetensor_dtype_supported_for_f16, ShardError, ShardType};
use grout::text::{chars, find_dot, is_text, is_text_any_case, strip_prefix};

#[test]
fn metadata_values_are_read_as_their_kind() {
    assert_eq!(Value::U8(7).to_u64().unwrap(), 7);
    assert_eq!(Value::I32(-1).to_u64().unwrap_err(), GgufError::NotUnsigned);
    let one = 1f32.to_bits();
    assert_eq!(
        Value::F32(one).to_f32().unwrap(),
        Float::Single { bits: one }
    );
    assert_eq!(Value::U32(1).to_f32().unwrap_err(), GgufError::NotFloat);
    let list = Value::Array(vec![Value::Bool(true), Value::Bool(false)]);
    assert_eq!(list.as_array().unwrap().len(), 2);
    assert!(list.as_array().unwrap()[0].to_bool().unwrap());
    assert_eq!(list.to_bool().unwrap_err(), GgufError::NotBool);
    assert_eq!(
        Value::Bool(true).as_array().unwrap_err(),
        GgufError::NotArray
    );
}

#[test]
fn numbers_are_little_endian() {
    let bytes = [1, 2, 3, 4, 5, 6, 7, 8, 9, 10, 11, 12, 13, 14, 15];
    let mut r = Reader {
        bytes: &bytes,
        pos: 0,
    };
    assert_eq!(r.read_u8().unwrap(), 1);
    assert_eq!(r.read_u16().unwrap(), 0x0302);
    assert_eq!(r.read_u32().unwrap(), 0x0706_0504);
    assert_eq!(r.remaining(), 8);
    assert_eq!(r.read_u64().unwrap(), 0x0f0e_0d0c_0b0a_0908);
    assert_eq!(r.remaining(), 0);
    assert!(r.read_u8().is_err());
    assert_eq!(ValueType::U16.min_disk_size(), 2);
    assert_eq!(ValueType::String.min_disk_size(), 8);
}

#[test]
fn sizes_multiply_while_they_fit() {
    assert_eq!(product_of_dims(&[]), Some(1));
    assert_eq!(product_of_dims(&[3, 4, 5]), Some(60));
    assert_eq!(product_of_dims(&[usize::MAX, 2]), None);
}

#[test]
fn floats_are_ordered_by_their_bits() {
    let order = |x: f32| order_of_single(x.to_bits());
    assert!(order(-2.0).unwrap() < order(-1.0).unwrap());
    assert!(order(-1.0).unwrap() < order(0.0).unwrap());
    assert_eq!(order(-0.0), order(0.0));
    assert!(order(1.0).unwrap() < order(f32::INFINITY).unwrap());
    assert_eq!(order(f32::NAN), None);
    // 1, 2 and not a number, as halves.
    assert!(order_of_half(0x3c00).unwrap() < order_of_half(0x4000).unwrap());
    assert_eq!(order_of_half(0x7e00), None);
}

#[test]
fn bytes_are_signed() {
    assert_eq!(signed_byte(127), 127);
    assert_eq!(signed_byte(128), -128);
    assert_eq!(signed_byte(255), -1);
}

#[test]
fn text_is_compared_and_cut() {
    let s = chars("blk.12.ffn");
    assert_eq!(find_dot(&s, 0), 3);
    assert_eq!(find_dot(&s, 4), 6);
    assert_eq!(find_dot(&s, 7), s.len());
    assert_eq!(strip_prefix(&s, "blk.").unwrap(), &chars("12.ffn")[..]);
    assert!(strip_prefix(&s, "blk_").is_none());
    assert!(is_text(&s, "blk.12.ffn"));
    assert!(!is_text(&s, "BLK.12.ffn"));
    assert!(is_text_any_case(&s, "BLK.12.ffn"));
}

#[test]
fn only_floats_of_shards_are_taken() {
    assert!(safetensor_dtype_supported_for_f16(ShardType::BF16));
    assert!(!safetensor_dtype_supported_for_f16(ShardType::Other));
    assert_eq!(cast_to_f16(ShardType::F32, &[0; 8]).unwrap().len(), 2);
    assert_eq!(
        cast_to_f16(ShardType::Other, &[0; 8]).unwrap_err(),
        ShardError::Unsupported
    );
}

#[test]
fn tiles_divide_a_problem_or_not() {
    let tile = TileConfig {
        bm: 16,
        bn: 32,
        bk: 64,
        num_ctas: 1,
        occupancy: 1,
    };
    let problem = Problem {
        m: 32,
        n: 64,
        k: 128,
    };
    assert!(ensure_tile_divisible(problem, tile).is_ok());
    let problem = Problem { n: 65, ..problem };
    assert_eq!(
        ensure_tile_divisible(problem, tile).unwrap_err(),
        GroupError::NotDivisible { problem, tile }
    );
}

#[test]
fn parameters_of_split_blocks_follow_the_width() {
    assert_eq!(q6k_soa_gemv_generics(512), vec![512, 32, 2, 1]);
    assert_eq!(q4k_soa_gemv_generics(512), vec![256, 16, 1]);
    assert_eq!(
        compile_options_with_occupancy(Some(4)),
        Hint::Occupancy(4)
    );
    assert_eq!(compile_options_with_occupancy(None), Hint::Default);
}

#[test]
fn values_of_an_operation_are_listed() {
    let op = Op::AddRmsNorm {
        residual: TensorRef::Value(ValueId(3)),
        x: TensorRef::Value(ValueId(1)),
        weight: TensorRef::Weight(WeightRef::Norm),
        n: 8,
        out: ValueId(4),
        residual_out: ValueId(5),
    };
    assert_eq!(op.value_inputs(), vec![ValueId(3), ValueId(1)]);
    assert_eq!(op.extra_outputs(), vec![ValueId(5)]);
    assert_eq!(TensorRef::Value(ValueId(3)).as_value(), Some(ValueId(3)));
    assert_eq!(TensorRef::Weight(WeightRef::Norm).as_value(), None);
}

#[test]
fn live_counts_keep_their_peak() {
    let mut live = SpecCounts::new();
    let mut peak = SpecCounts::new();
    let spec = TensorSpec::half(vec![2, 3]);
    increment_live_count(&mut live, &mut peak, &spec);
    increment_live_count(&mut live, &mut peak, &spec);
    decrement_live_count(&mut live, &spec).unwrap();
    assert_eq!(live.get(&spec), Some(1));
    assert_eq!(peak.get(&spec), Some(2));
    decrement_live_count(&mut live, &spec).unwrap();
    assert!(decrement_live_count(&mut live, &spec).is_err());
    assert_eq!(live.get(&TensorSpec::half(vec![3, 2])), None);
}

#[test]
fn values_too_deep_leave_reader_and_budget_alone() {
    let bytes = [7];
    let mut r = Reader {
        bytes: &bytes,
        pos: 0,
    };
    let mut budget = 5;
    for depth in [GGUF_MAX_VALUE_DEPTH + 1, GGUF_MAX_VALUE_DEPTH + 2, usize::MAX] {
        for kind in [ValueType::U8, ValueType::Array] {
            let e = read_value(&mut r, kind, depth, &mut budget).unwrap_err();
            assert_eq!(e, GgufError::Depth);
            assert_eq!((r.pos, budget), (0, 5));
        }
    }
    let v = read_value(&mut r, ValueType::U8, GGUF_MAX_VALUE_DEPTH, &mut budget).unwrap();
    assert_eq!(v.to_u32().unwrap(), 7);
    assert_eq!((r.pos, budget), (1, 5));
}

#[test]
fn reading_an_array_takes_its_elements_from_the_budget() {
    // Three bytes: the type of the elements, their count, then they.
    let mut bytes = 0u32.to_le_bytes().to_vec();
    bytes.extend_from_slice(&3u64.to_le_bytes());
    bytes.extend_from_slice(&[1, 2, 3]);
    let read = |budget: &mut u64| {
        let mut r = Reader {
            bytes: &bytes,
            pos: 0,
        };
        read_value(&mut r, ValueType::Array, 0, budget)
    };
    let mut budget = 10;
    assert_eq!(read(&mut budget).unwrap().as_array().unwrap().len(), 3);
    assert_eq!(budget, 7);
    let mut budget = 2;
    assert_eq!(
        read(&mut budget).unwrap_err(),
        GgufError::ElementBudget { len: 3, left: 2 }
    );
}
