use grout::config::{ConfigError, EosTokenId, Qwen3Config, SizeField};
use grout::gguf::Float;

fn single(x: f32) -> Float {
    Float::Single { bits: x.to_bits() }
}

fn qwen3_4b() -> Qwen3Config {
    Qwen3Config {
        vocab_size: 151936,
        hidden_size: 2560,
        intermediate_size: 9728,
        num_hidden_layers: 36,
        num_attention_heads: 32,
        num_key_value_heads: 8,
        head_dim: 128,
        rms_norm_eps: single(1e-6),
        rope_theta: single(1e6),
        max_position_embeddings: 40960,
        tie_word_embeddings: true,
        use_sliding_window: false,
        eos_token_id: 151645,
    }
}

#[test]
fn valid_config_passes() {
    qwen3_4b().validate().unwrap();
}

#[test]
fn zero_kv_heads_is_an_error_not_a_setup_panic() {
    let mut c = qwen3_4b();
    c.num_key_value_heads = 0;
    assert!(c.validate().is_err());
}

#[test]
fn non_divisible_head_grouping_is_rejected() {
    let mut c = qwen3_4b();
    c.num_key_value_heads = 5;
    assert!(c.validate().is_err());
}

#[test]
fn nan_eps_and_zero_theta_are_rejected() {
    let mut c = qwen3_4b();
    c.rms_norm_eps = single(f32::NAN);
    assert!(c.validate().is_err());
    let mut c = qwen3_4b();
    c.rope_theta = single(0.0);
    assert!(c.validate().is_err());
}

#[test]
fn zero_and_absurd_sizes_are_rejected() {
    let mut c = qwen3_4b();
    c.hidden_size = 0;
    assert!(c.validate().is_err());
    let mut c = qwen3_4b();
    c.vocab_size = 1 << 30;
    assert!(c.validate().is_err());
}

#[test]
fn each_config_error_names_its_reason() {
    let mut c = qwen3_4b();
    c.head_dim = 0;
    assert_eq!(
        c.validate(),
        Err(ConfigError::Range {
            field: SizeField::HeadDim,
            value: 0,
            max: 4096
        })
    );
    let mut c = qwen3_4b();
    c.head_dim = 127;
    assert_eq!(c.validate(), Err(ConfigError::OddHeadDim { head_dim: 127 }));
    let mut c = qwen3_4b();
    c.num_key_value_heads = 5;
    assert_eq!(
        c.validate(),
        Err(ConfigError::HeadGrouping {
            heads: 32,
            kv_heads: 5
        })
    );
    let mut c = qwen3_4b();
    c.rms_norm_eps = single(-1e-6);
    assert_eq!(c.validate(), Err(ConfigError::Epsilon));
    let mut c = qwen3_4b();
    c.rope_theta = single(f32::INFINITY);
    assert_eq!(c.validate(), Err(ConfigError::Theta));
    assert_eq!(
        ConfigError::Theta.message(),
        "rope_theta must be a positive finite float"
    );
}

#[test]
fn double_precision_settings_count_by_their_single_value() {
    let bound = |x: f64| {
        let mut c = qwen3_4b();
        c.rope_theta = Float::Double { bits: x.to_bits() };
        c.validate().is_ok()
    };
    for x in [1e6f64, 1e-46, 1e-45, 7e-46, 8e-46, 3.5e38, 3.4e38, 1e39, -1.0, f64::NAN] {
        let y = x as f32;
        assert_eq!(bound(x), y.is_finite() && y > 0.0, "{}", x);
    }
}

#[test]
fn heads_share_key_heads_evenly() {
    assert_eq!(qwen3_4b().num_kv_groups(), 4);
}

#[test]
fn eos_tokens_come_in_order() {
    assert_eq!(EosTokenId::One(7).into_vec(), vec![7]);
    assert_eq!(EosTokenId::Many(vec![3, 1, 2]).into_vec(), vec![3, 1, 2]);
}
