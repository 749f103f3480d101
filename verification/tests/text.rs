use grout::knobs::{
    argmax_reduce_block_size, env_bool_hint_or, env_bool_or, env_usize_hint_or, env_usize_or,
    floor_power_of_two_le, power_of_two, prefill_lpt_swizzle,
};
use grout::names::NameMap;
use grout::text::{chars, from_chars, parse_usize, push_decimal, split, to_lower, trim};

fn parse(s: &str) -> Option<usize> {
    parse_usize(&chars(s))
}

#[test]
fn numbers_are_read_as_they_are_written() {
    for n in [0usize, 7, 10, 4096, usize::MAX] {
        let mut s = String::from("n=");
        push_decimal(&mut s, n);
        assert_eq!(s, format!("n={n}"));
        assert_eq!(parse(&s[2..]), Some(n));
    }
    for s in ["", "+", "+5", "-5", "05", " 5", "5x", "18446744073709551616"] {
        assert_eq!(parse(s), s.parse::<usize>().ok(), "{}", s);
    }
}

#[test]
fn text_is_trimmed_and_split_like_strings() {
    for s in ["", "  a b\t", "\u{2003}x\u{a0}", "abc\n"] {
        assert_eq!(from_chars(trim(&chars(s))), s.trim());
        let low: String = to_lower(&chars(s)).into_iter().collect();
        assert_eq!(low, s.to_ascii_lowercase());
    }
    for s in ["", ",", "a,b;c", ";;"] {
        let pieces: Vec<String> = split(&chars(s), &[',', ';'])
            .into_iter()
            .map(|p| from_chars(&p))
            .collect();
        let want: Vec<&str> = s.split([',', ';']).collect();
        assert_eq!(pieces, want);
    }
}

#[test]
fn variables_fall_back_to_defaults() {
    assert_eq!(env_usize_or(None, 7), 7);
    assert_eq!(env_usize_or(Some("12"), 7), 12);
    assert_eq!(env_usize_or(Some("x"), 7), 7);
    assert!(env_bool_or(None, true));
    assert!(!env_bool_or(Some("0"), true));
    assert!(env_bool_or(Some("1"), false));
    assert_eq!(env_usize_hint_or(None, 3), Some(3));
    assert_eq!(env_usize_hint_or(Some("none"), 3), None);
    assert_eq!(env_usize_hint_or(Some("5"), 3), Some(5));
    assert_eq!(env_bool_hint_or(Some("none"), true), None);
    assert_eq!(env_bool_hint_or(Some("0"), true), Some(false));
}

#[test]
fn powers_of_two_bound_sizes() {
    for n in 1usize..300 {
        let p = floor_power_of_two_le(n);
        assert!(power_of_two(p) && p <= n && n < 2 * p);
        let q = argmax_reduce_block_size(n);
        assert!(power_of_two(q) && n <= q && q < 2 * n);
        assert_eq!(power_of_two(n), n.is_power_of_two());
    }
    assert_eq!(floor_power_of_two_le(0), 1);
    assert_eq!(argmax_reduce_block_size(0), 1);
    // One head of 2048 tokens takes a mebibyte; fifty fit.
    assert_eq!(prefill_lpt_swizzle(2048, 128, 100, 50 * 1024 * 1024), 32);
    assert_eq!(prefill_lpt_swizzle(2048, 128, 8, 50 * 1024 * 1024), 8);
    assert_eq!(prefill_lpt_swizzle(usize::MAX, 128, 8, 1000), 1);
}

#[test]
fn the_last_value_of_a_name_counts() {
    let mut m = NameMap::new();
    m.insert("a".to_string(), 1u64);
    m.insert("b".to_string(), 2);
    m.insert("a".to_string(), 3);
    assert_eq!(m.len(), 2);
    assert_eq!(m.get("a"), Some(&3));
    assert_eq!(m.name_at(0), "a");
    assert_eq!(*m.value_at(1), 2);
    assert!(!m.contains("c"));
}
