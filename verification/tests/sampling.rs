use grout::sampling::{
    argmax_f16, argmax_f32, argmax_len, argmax_of_blocks, temperature_or_default,
    top_p_or_default, ArgmaxError,
};

fn bits(v: &[f32]) -> Vec<u32> {
    v.iter().map(|x| x.to_bits()).collect()
}

fn greatest(v: &[f32]) -> usize {
    let mut best = (0, f32::NEG_INFINITY);
    for (i, &x) in v.iter().enumerate() {
        if x > best.1 {
            best = (i, x);
        }
    }
    best.0
}

#[test]
fn the_first_greatest_logit_wins() {
    let inf = f32::INFINITY;
    for v in [
        vec![],
        vec![1.0f32, 3.0, 3.0, 2.0],
        vec![-5.0, -1.0, -2.0],
        vec![0.0, -0.0],
        vec![-0.0, 0.0],
        vec![f32::NAN, -1.0, f32::NAN, -0.5],
        vec![-inf, -inf],
        vec![-inf, f32::NAN, -3.0e38],
        vec![1.0, inf, inf],
    ] {
        assert_eq!(argmax_f32(&bits(&v)), greatest(&v), "{:?}", v);
    }
}

#[test]
fn half_logits_are_ordered_by_value() {
    // 1.0, -2.0, 2.0, 2.0
    assert_eq!(argmax_f16(&[0x3c00, 0xc000, 0x4000, 0x4000]), 2);
    // not a number, -2.0, -1.0
    assert_eq!(argmax_f16(&[0x7e00, 0xc000, 0xbc00]), 2);
    // the least subnormal beats zero
    assert_eq!(argmax_f16(&[0x0000, 0x0001]), 1);
    assert_eq!(argmax_f16(&[0xfc00, 0xfc00]), 0);
}

#[test]
fn blocks_report_their_greatest() {
    let v = [1.0f32, 4.0, 4.0, 2.0, 4.0];
    // Two per block, the last block short.
    let maxes = bits(&[4.0, 4.0, 4.0]);
    assert_eq!(argmax_of_blocks(&maxes, &[1, 2, 4], v.len()), greatest(&v));
    // Later blocks may report earlier places.
    assert_eq!(argmax_of_blocks(&bits(&[2.0, 2.0]), &[3, 1], 5), 1);
    // Places past the end do not count.
    assert_eq!(argmax_of_blocks(&bits(&[9.0, 2.0]), &[7, 1], 5), 1);
    assert_eq!(argmax_of_blocks(&bits(&[f32::NAN]), &[2], 5), 0);
    assert_eq!(argmax_of_blocks(&[], &[], 5), 0);
}

#[test]
fn only_a_row_of_logits_has_a_greatest() {
    assert_eq!(argmax_len(&[7]), Ok(7));
    assert_eq!(argmax_len(&[0]), Err(ArgmaxError::Empty));
    assert_eq!(argmax_len(&[1, 7]), Err(ArgmaxError::Rank { rank: 2 }));
}

#[test]
fn settings_are_kept_in_bounds() {
    for x in [0.0f32, -1.0, 1e-6, 1e-5, 0.7, 2.0, f32::NAN, f32::INFINITY] {
        assert_eq!(
            temperature_or_default(Some(x.to_bits())),
            x.max(1.0e-5).to_bits(),
            "{}",
            x
        );
    }
    assert_eq!(temperature_or_default(None), 1.0f32.to_bits());
    for x in [0.0f32, -0.0, -1.0, 0.95, 1.0, 1.5, f32::NEG_INFINITY] {
        assert_eq!(
            top_p_or_default(Some(x.to_bits())),
            x.clamp(0.0, 1.0).to_bits(),
            "{}",
            x
        );
    }
    assert!(f32::from_bits(top_p_or_default(Some(f32::NAN.to_bits()))).is_nan());
    assert_eq!(top_p_or_default(None), 1.0f32.to_bits());
}
