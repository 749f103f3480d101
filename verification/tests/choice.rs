use grout::choice::{
    can_draw, choice_rule, double_keys, drawn, nucleus_len, order_of_double, ranked, single_keys,
    ChoiceError, ChoiceRule,
};
use grout::tiles::{attended_keys, keys_of_split, kv_head_of, rotated_with, KeyMask};

fn bits(values: &[f32]) -> Vec<u32> {
    values.iter().map(|v| v.to_bits()).collect()
}

fn wide(values: &[f64]) -> Vec<u64> {
    values.iter().map(|v| v.to_bits()).collect()
}

#[test]
fn chance_needs_a_temperature() {
    let rule = |len, t: f32| choice_rule(len, t.to_bits());
    assert_eq!(rule(0, 1.0), Err(ChoiceError::Empty));
    assert_eq!(rule(5, 1.0e-5), Ok(ChoiceRule::Greatest));
    assert_eq!(rule(5, -1.0), Ok(ChoiceRule::Greatest));
    assert_eq!(rule(5, 0.7), Ok(ChoiceRule::Weighed));
    assert_eq!(rule(5, f32::NAN), Ok(ChoiceRule::Weighed));
}

#[test]
fn places_are_ranked_like_a_stable_sort() {
    let mut values: Vec<f32> = Vec::new();
    let mut x: u32 = 12345;
    for _ in 0..1000 {
        x = x.wrapping_mul(1664525).wrapping_add(1013904223);
        values.push(((x >> 20) as f32 - 2048.0) / 16.0);
    }
    values.extend([f32::NAN, -f32::NAN, f32::INFINITY, f32::NEG_INFINITY, 0.0, -0.0]);
    let mut want: Vec<usize> = (0..values.len()).collect();
    want.sort_by(|a, b| values[*b].total_cmp(&values[*a]));
    let keys = single_keys(&bits(&values));
    assert_eq!(ranked(&keys, 0), want);
    assert_eq!(ranked(&keys, 10), want[..10]);
    assert_eq!(ranked(&keys, 5000), want);
    assert!(ranked(&[], 3).is_empty());
}

#[test]
fn doubles_are_placed_by_total_order() {
    let values = [
        -f64::NAN,
        f64::NEG_INFINITY,
        -1.5,
        -0.0,
        0.0,
        1.0e-300,
        2.0,
        f64::INFINITY,
        f64::NAN,
    ];
    let keys = double_keys(&wide(&values));
    assert!(keys.windows(2).all(|w| w[0] < w[1]));
    assert_eq!(order_of_double(f64::NAN.to_bits()), None);
    assert_eq!(order_of_double((-0.0f64).to_bits()), Some(0));
}

#[test]
fn the_bound_keeps_the_first_that_reach_it() {
    let sums = wide(&[0.4, 0.7, 0.9, 1.0]);
    assert_eq!(nucleus_len(&sums, 0.7f64.to_bits()), 2);
    assert_eq!(nucleus_len(&sums, 0.0f64.to_bits()), 1);
    assert_eq!(nucleus_len(&sums, 0.95f64.to_bits()), 4);
    assert_eq!(nucleus_len(&sums, 2.0f64.to_bits()), 4);
    assert_eq!(nucleus_len(&sums, f64::NAN.to_bits()), 4);
}

#[test]
fn a_draw_falls_where_nothing_is_left() {
    assert_eq!(drawn(&wide(&[0.5, 0.1, -0.1, -0.4])), Some(2));
    assert_eq!(drawn(&wide(&[0.5, -0.0])), Some(1));
    assert_eq!(drawn(&wide(&[0.5, f64::NAN])), None);
    assert!(can_draw(1.0f64.to_bits()));
    assert!(!can_draw(0.0f64.to_bits()));
    assert!(!can_draw(f64::INFINITY.to_bits()));
    assert!(!can_draw(f64::NAN.to_bits()));
}

#[test]
fn tokens_attend_to_the_past() {
    for kv_len in [1usize, 5, 32, 33, 64] {
        for position in 0..kv_len {
            let keys = attended_keys(KeyMask::Causal { position }, kv_len, 16);
            assert_eq!(keys, (0..=position).collect::<Vec<usize>>());
        }
        let keys = attended_keys(KeyMask::Full, kv_len, 16);
        assert_eq!(keys, (0..kv_len).collect::<Vec<usize>>());
    }
}

#[test]
fn splits_share_the_keys() {
    let mut seen = Vec::new();
    for split in 0..4 {
        seen.extend(keys_of_split(split, 64, 32, 150));
    }
    assert_eq!(seen, (0..150).collect::<Vec<usize>>());
    // A stretch that is no whole number of tiles starts at the tile of its first key.
    assert_eq!(keys_of_split(1, 50, 32, 100), (32..96).collect::<Vec<usize>>());
}

#[test]
fn heads_share_keys_and_halves_rotate_together() {
    let heads: Vec<usize> = (0..8).map(|h| kv_head_of(h, 4)).collect();
    assert_eq!(heads, vec![0, 0, 0, 0, 1, 1, 1, 1]);
    assert_eq!(rotated_with(3, 128), 67);
    assert_eq!(rotated_with(67, 128), 3);
}
