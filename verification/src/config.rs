//! Model and generation settings.
use crate::gguf::Float;
use crate::names::NameMap;
use vstd::prelude::*;

verus! {

/// The shape of a Qwen3 model. The two floating-point numbers are kept by their
/// bits; a double-precision one counts by the single-precision number that it
/// rounds to.
#[derive(Clone, Copy, Debug, PartialEq, Eq, Structural)]
pub struct Qwen3Config {
    pub vocab_size: usize,
    pub hidden_size: usize,
    pub intermediate_size: usize,
    pub num_hidden_layers: usize,
    pub num_attention_heads: usize,
    pub num_key_value_heads: usize,
    pub head_dim: usize,
    pub rms_norm_eps: Float,
    pub rope_theta: Float,
    pub max_position_embeddings: usize,
    pub tie_word_embeddings: bool,
    pub use_sliding_window: bool,
    pub eos_token_id: u32,
}

/// The sizes of a configuration.
#[derive(Clone, Copy, Debug, PartialEq, Eq, Structural)]
pub enum SizeField {
    VocabSize,
    HiddenSize,
    IntermediateSize,
    NumHiddenLayers,
    NumAttentionHeads,
    NumKeyValueHeads,
    HeadDim,
    MaxPositionEmbeddings,
}

/// Why a configuration is refused.
#[derive(Clone, Copy, Debug, PartialEq, Eq, Structural)]
pub enum ConfigError {
    /// A size is zero or above its bound.
    Range { field: SizeField, value: usize, max: usize },
    /// The attention heads do not split evenly over the key/value heads.
    HeadGrouping { heads: usize, kv_heads: usize },
    /// The head dimension is odd.
    OddHeadDim { head_dim: usize },
    /// `rms_norm_eps` is not a positive finite number.
    Epsilon,
    /// `rope_theta` is not a positive finite number.
    Theta,
}

impl ConfigError {
    /// The error in words.
    pub open spec fn text(self) -> Seq<char> {
        match self {
            ConfigError::Range { .. } => "config size out of range"@,
            ConfigError::HeadGrouping { .. } =>
                "num_attention_heads must be divisible by num_key_value_heads"@,
            ConfigError::OddHeadDim { .. } =>
                "head_dim must be even (RoPE rotates half-dimensions)"@,
            ConfigError::Epsilon => "rms_norm_eps must be a positive finite float"@,
            ConfigError::Theta => "rope_theta must be a positive finite float"@,
        }
    }

    /// The error in words.
    pub fn message(&self) -> (r: &'static str)
        ensures
            r@ == self.text(),
    {
        match *self {
            ConfigError::Range { .. } => "config size out of range",
            ConfigError::HeadGrouping { .. } => "num_attention_heads must be divisible by num_key_value_heads",
            ConfigError::OddHeadDim { .. } => "head_dim must be even (RoPE rotates half-dimensions)",
            ConfigError::Epsilon => "rms_norm_eps must be a positive finite float",
            ConfigError::Theta => "rope_theta must be a positive finite float",
        }
    }
}

/// Whether a number, rounded to single precision, is positive and finite. The bits
/// of positive numbers are ordered as the numbers are: a single is positive and
/// finite between zero and infinity; a double rounds to such a single where it is
/// above half the least single and below the midpoint past the greatest.
pub open spec fn positive_finite(x: Float) -> bool {
    match x {
        Float::Single { bits } => 0 < bits < 0x7f80_0000,
        Float::Double { bits } => 0x3690_0000_0000_0000 < bits < 0x47ef_ffff_f000_0000,
    }
}

fn is_positive_finite(x: Float) -> (r: bool)
    ensures
        r == positive_finite(x),
{
    match x {
        Float::Single { bits } => 0 < bits && bits < 0x7f80_0000,
        Float::Double { bits } => 0x3690_0000_0000_0000 < bits && bits < 0x47ef_ffff_f000_0000,
    }
}

pub const MAX_VOCAB_SIZE: usize = 0x100_0000;

pub const MAX_HIDDEN_SIZE: usize = 0x10_0000;

pub const MAX_INTERMEDIATE_SIZE: usize = 0x40_0000;

pub const MAX_LAYERS: usize = 0x1000;

pub const MAX_HEADS: usize = 0x1000;

pub const MAX_HEAD_DIM: usize = 0x1000;

pub const MAX_POSITIONS: usize = 0x200_0000;

/// The first size of `fields` that is zero or above its bound.
pub open spec fn first_bad_size(fields: Seq<(SizeField, usize, usize)>) -> Option<
    (SizeField, usize, usize),
>
    decreases fields.len(),
{
    if fields.len() == 0 {
        None
    } else {
        match first_bad_size(fields.drop_last()) {
            Some(f) => Some(f),
            None => if 1 <= fields.last().1 <= fields.last().2 {
                None
            } else {
                Some(fields.last())
            },
        }
    }
}

proof fn lemma_bad_size_prefix(fields: Seq<(SizeField, usize, usize)>, k: int)
    requires
        0 <= k <= fields.len(),
        first_bad_size(fields.subrange(0, k)) is Some,
    ensures
        first_bad_size(fields) == first_bad_size(fields.subrange(0, k)),
    decreases fields.len() - k,
{
    if k < fields.len() {
        assert(fields.subrange(0, k + 1).drop_last() =~= fields.subrange(0, k));
        lemma_bad_size_prefix(fields, k + 1);
    } else {
        assert(fields.subrange(0, k) =~= fields);
    }
}

impl Qwen3Config {
    /// The sizes with their values and bounds, in the order in which they are checked.
    pub open spec fn sizes(self) -> Seq<(SizeField, usize, usize)> {
        seq![
            (SizeField::VocabSize, self.vocab_size, MAX_VOCAB_SIZE),
            (SizeField::HiddenSize, self.hidden_size, MAX_HIDDEN_SIZE),
            (SizeField::IntermediateSize, self.intermediate_size, MAX_INTERMEDIATE_SIZE),
            (SizeField::NumHiddenLayers, self.num_hidden_layers, MAX_LAYERS),
            (SizeField::NumAttentionHeads, self.num_attention_heads, MAX_HEADS),
            (SizeField::NumKeyValueHeads, self.num_key_value_heads, MAX_HEADS),
            (SizeField::HeadDim, self.head_dim, MAX_HEAD_DIM),
            (SizeField::MaxPositionEmbeddings, self.max_position_embeddings, MAX_POSITIONS),
        ]
    }

    /// Whether the configuration is one that a model can have, and the first reason
    /// against it.
    pub open spec fn check(self) -> Result<(), ConfigError> {
        match first_bad_size(self.sizes()) {
            Some((field, value, max)) => Err(ConfigError::Range { field, value, max }),
            None => if self.num_attention_heads as int % self.num_key_value_heads as int != 0 {
                Err(
                    ConfigError::HeadGrouping {
                        heads: self.num_attention_heads,
                        kv_heads: self.num_key_value_heads,
                    },
                )
            } else if self.head_dim % 2 != 0 {
                Err(ConfigError::OddHeadDim { head_dim: self.head_dim })
            } else if !positive_finite(self.rms_norm_eps) {
                Err(ConfigError::Epsilon)
            } else if !positive_finite(self.rope_theta) {
                Err(ConfigError::Theta)
            } else {
                Ok(())
            },
        }
    }

    /// The configuration passed its check.
    pub open spec fn valid(self) -> bool {
        self.check() is Ok
    }

    /// Query heads per key/value head.
    pub open spec fn kv_groups(self) -> int {
        self.num_attention_heads as int / self.num_key_value_heads as int
    }

    /// Query heads per key/value head.
    pub fn num_kv_groups(&self) -> (r: usize)
        requires
            self.num_key_value_heads > 0,
        ensures
            r as int == self.kv_groups(),
    {
        self.num_attention_heads / self.num_key_value_heads
    }

    /// Checks a configuration that comes from a file. The bounds catch corrupt files;
    /// real models lie far inside them.
    pub fn validate(&self) -> (r: Result<(), ConfigError>)
        ensures
            r == self.check(),
    {
        let fields = [
            (SizeField::VocabSize, self.vocab_size, MAX_VOCAB_SIZE),
            (SizeField::HiddenSize, self.hidden_size, MAX_HIDDEN_SIZE),
            (SizeField::IntermediateSize, self.intermediate_size, MAX_INTERMEDIATE_SIZE),
            (SizeField::NumHiddenLayers, self.num_hidden_layers, MAX_LAYERS),
            (SizeField::NumAttentionHeads, self.num_attention_heads, MAX_HEADS),
            (SizeField::NumKeyValueHeads, self.num_key_value_heads, MAX_HEADS),
            (SizeField::HeadDim, self.head_dim, MAX_HEAD_DIM),
            (SizeField::MaxPositionEmbeddings, self.max_position_embeddings, MAX_POSITIONS),
        ];
        let ghost all = self.sizes();
        assert(fields@ =~= all);
        let mut i: usize = 0;
        assert(all.subrange(0, 0) =~= Seq::empty());
        while i < 8
            invariant
                i <= 8,
                fields@ == all,
                all == self.sizes(),
                first_bad_size(all.subrange(0, i as int)) is None,
            decreases 8 - i,
        {
            let (field, value, max) = fields[i];
            assert(all.subrange(0, i + 1).drop_last() =~= all.subrange(0, i as int));
            if value < 1 || value > max {
                proof {
                    lemma_bad_size_prefix(all, i + 1);
                }
                return Err(ConfigError::Range { field, value, max });
            }
            i = i + 1;
        }
        assert(all.subrange(0, 8) =~= all);
        proof {
            lemma_valid_sizes(*self);
        }
        if self.num_attention_heads % self.num_key_value_heads != 0 {
            return Err(
                ConfigError::HeadGrouping {
                    heads: self.num_attention_heads,
                    kv_heads: self.num_key_value_heads,
                },
            );
        }
        if self.head_dim % 2 != 0 {
            return Err(ConfigError::OddHeadDim { head_dim: self.head_dim });
        }
        if !is_positive_finite(self.rms_norm_eps) {
            return Err(ConfigError::Epsilon);
        }
        if !is_positive_finite(self.rope_theta) {
            return Err(ConfigError::Theta);
        }
        Ok(())
    }
}

/// Where no size is bad, each lies between one and its bound.
proof fn lemma_valid_sizes(c: Qwen3Config)
    requires
        first_bad_size(c.sizes()) is None,
    ensures
        1 <= c.vocab_size <= MAX_VOCAB_SIZE,
        1 <= c.hidden_size <= MAX_HIDDEN_SIZE,
        1 <= c.intermediate_size <= MAX_INTERMEDIATE_SIZE,
        1 <= c.num_hidden_layers <= MAX_LAYERS,
        1 <= c.num_attention_heads <= MAX_HEADS,
        1 <= c.num_key_value_heads <= MAX_HEADS,
        1 <= c.head_dim <= MAX_HEAD_DIM,
        1 <= c.max_position_embeddings <= MAX_POSITIONS,
{
    lemma_sizes_each(c.sizes());
    let s = c.sizes();
    assert(1 <= s[0].1 <= s[0].2);
    assert(1 <= s[1].1 <= s[1].2);
    assert(1 <= s[2].1 <= s[2].2);
    assert(1 <= s[3].1 <= s[3].2);
    assert(1 <= s[4].1 <= s[4].2);
    assert(1 <= s[5].1 <= s[5].2);
    assert(1 <= s[6].1 <= s[6].2);
    assert(1 <= s[7].1 <= s[7].2);
}

proof fn lemma_sizes_each(fields: Seq<(SizeField, usize, usize)>)
    requires
        first_bad_size(fields) is None,
    ensures
        forall|i: int| 0 <= i < fields.len() ==> 1 <= (#[trigger] fields[i]).1 <= fields[i].2,
    decreases fields.len(),
{
    if fields.len() > 0 {
        lemma_sizes_each(fields.drop_last());
        assert forall|i: int| 0 <= i < fields.len() implies 1 <= (#[trigger] fields[i]).1
            <= fields[i].2 by {
            if i < fields.len() - 1 {
                assert(fields[i] == fields.drop_last()[i]);
            }
        }
    }
}

/// A valid configuration has no zero size and stays inside its bounds; its query
/// heads are a whole, positive number of groups per key/value head; its head
/// dimension is even.
pub proof fn law_valid_config(c: Qwen3Config)
    requires
        c.valid(),
    ensures
        1 <= c.vocab_size <= MAX_VOCAB_SIZE,
        1 <= c.hidden_size <= MAX_HIDDEN_SIZE,
        1 <= c.intermediate_size <= MAX_INTERMEDIATE_SIZE,
        1 <= c.num_hidden_layers <= MAX_LAYERS,
        1 <= c.num_attention_heads <= MAX_HEADS,
        1 <= c.num_key_value_heads <= MAX_HEADS,
        1 <= c.head_dim <= MAX_HEAD_DIM,
        1 <= c.max_position_embeddings <= MAX_POSITIONS,
        c.head_dim % 2 == 0,
        c.kv_groups() >= 1,
        c.kv_groups() * c.num_key_value_heads == c.num_attention_heads,
{
    lemma_valid_sizes(c);
    let (h, k) = (c.num_attention_heads as int, c.num_key_value_heads as int);
    vstd::arithmetic::div_mod::lemma_fundamental_div_mod(h, k);
    vstd::arithmetic::mul::lemma_mul_is_commutative(k, h / k);
    assert(h / k >= 1) by (nonlinear_arith)
        requires
            h >= 1,
            k >= 1,
            h == k * (h / k),
    ;
}

/// Which shard file holds each tensor of a sharded model.
#[derive(Debug)]
pub struct SafetensorsIndex {
    pub weight_map: NameMap<String>,
}

/// One end-of-sequence token or several.
#[derive(Debug)]
pub enum EosTokenId {
    One(u32),
    Many(Vec<u32>),
}

impl EosTokenId {
    /// The tokens in order.
    pub open spec fn tokens(self) -> Seq<u32> {
        match self {
            EosTokenId::One(x) => seq![x],
            EosTokenId::Many(xs) => xs@,
        }
    }

    /// The tokens in order.
    pub fn into_vec(self) -> (r: Vec<u32>)
        ensures
            r@ == self.tokens(),
    {
        match self {
            EosTokenId::One(x) => {
                let mut v: Vec<u32> = Vec::new();
                v.push(x);
                assert(v@ =~= seq![x]);
                v
            },
            EosTokenId::Many(xs) => xs,
        }
    }
}

/// Settings for sampling. Floating-point numbers are kept by their bits.
#[derive(Debug)]
pub struct GenerationConfig {
    pub do_sample: Option<bool>,
    pub temperature: Option<u32>,
    pub top_k: Option<usize>,
    pub top_p: Option<u32>,
    pub eos_token_id: Option<EosTokenId>,
}

} // verus!
