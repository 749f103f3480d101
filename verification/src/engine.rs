//! Loading a model: which settings hold, whether it fits the device, which tensors it has.
use crate::attention::ROPE_BLOCK;
use crate::config::{GenerationConfig, Qwen3Config};
use crate::forward::LayerWeights;
use crate::generate::{gen_run, gen_start, law_all_tokens_without_eos, GenEvent, GenRequest};
use crate::knobs::{env_usize_or, is_power_of_two, text_of, usize_or};
use crate::loader::{resident_index_total, resident_total, LoadError, WeightLoader};
use crate::pointwise::{rms_hidden_block, ADD_RMS_BLOCK, RMS_BLOCK_HIDDEN};
use crate::sampling::{temperature_of, temperature_or_default, top_p_of, top_p_or_default};
use crate::text::{chars, decimal_text, push_decimal, same};
use crate::weights::{matrix_elems, MatrixWeight, Weight};
use vstd::prelude::*;

verus! {

/// Hidden size from which on a model counts as large.
pub const LARGE_HIDDEN_SIZE: usize = 4096;

/// Context length of small models where none is asked for.
pub const DEFAULT_MAX_CTX_SMALL: usize = 32768;

/// Context length of large models where none is asked for.
pub const DEFAULT_MAX_CTX_LARGE: usize = 16384;

/// Device memory that stays free beside weights, caches and scratch.
pub const VRAM_SLACK_BYTES: usize = 734003200;

/// Why a model is not loaded.
#[derive(Clone, Copy, Debug, PartialEq, Eq, Structural)]
pub enum EngineLoadError {
    /// The model attends within a sliding window.
    SlidingWindow,
    /// The kernels do not have this head dimension.
    HeadDim { head_dim: usize },
    /// Bytes of the caches per token do not fit a number.
    KvBytesPerToken,
    /// Bytes of the caches do not fit a number.
    KvBytes,
    /// Bytes together do not fit a number.
    ByteTotal,
    /// The weights cannot be counted.
    Weights { error: LoadError },
    /// The device has too little memory free.
    TooLarge { need: VramNeed, free: usize },
    /// A GGUF file without `tokenizer.json` next to it.
    NoTokenizer,
}

/// The context length of a model where none is asked for.
pub open spec fn default_ctx(cfg: Qwen3Config) -> usize {
    if cfg.hidden_size >= LARGE_HIDDEN_SIZE {
        DEFAULT_MAX_CTX_LARGE
    } else {
        DEFAULT_MAX_CTX_SMALL
    }
}

/// The context length of a model where none is asked for.
pub fn default_max_ctx_for_config(cfg: &Qwen3Config) -> (r: usize)
    ensures
        r == default_ctx(*cfg),
{
    if cfg.hidden_size >= LARGE_HIDDEN_SIZE {
        DEFAULT_MAX_CTX_LARGE
    } else {
        DEFAULT_MAX_CTX_SMALL
    }
}

/// The context length: the asked one or the default, and never more than the model has
/// positions.
pub open spec fn context_of(cfg: Qwen3Config, requested: Option<usize>) -> usize {
    let asked = (match requested {
        Some(n) => n,
        None => default_ctx(cfg),
    });
    if asked <= cfg.max_position_embeddings {
        asked
    } else {
        cfg.max_position_embeddings
    }
}

/// Settings of the surroundings, as they are written.
pub struct LoadEnv<'a> {
    pub add_rms_block: Option<&'a str>,
    pub rms_hidden_block: Option<&'a str>,
    pub profile: Option<&'a str>,
}

/// Settings of an engine. Floating-point numbers are kept by their bits.
#[derive(Debug)]
pub struct EngineSettings {
    pub max_seq_len: usize,
    pub eos_token_ids: Vec<u32>,
    pub do_sample: bool,
    pub temperature: u32,
    pub top_k: usize,
    pub top_p: u32,
    pub use_chat_template: bool,
    pub use_device_argmax: bool,
    pub add_rms_block: usize,
    pub rms_hidden_block: usize,
    pub profile_enabled: bool,
}

/// Settings of an engine.
#[verifier::ext_equal]
pub struct SettingsModel {
    pub max_seq_len: usize,
    pub eos: Seq<u32>,
    pub do_sample: bool,
    pub temperature: u32,
    pub top_k: usize,
    pub top_p: u32,
    pub use_chat_template: bool,
    pub use_device_argmax: bool,
    pub add_rms_block: usize,
    pub rms_hidden_block: usize,
    pub profile_enabled: bool,
}

impl SettingsModel {
    /// The same, with tokens chosen by chance or not.
    pub open spec fn with_sampling(self, enabled: bool) -> SettingsModel {
        SettingsModel { do_sample: enabled, ..self }
    }

    /// The same, with prompts made turns of the user or not.
    pub open spec fn with_chat_template(self, enabled: bool) -> SettingsModel {
        SettingsModel { use_chat_template: enabled, ..self }
    }

    /// The same, with the greatest logit found by the device or not.
    pub open spec fn with_device_argmax(self, enabled: bool) -> SettingsModel {
        SettingsModel { use_device_argmax: enabled, ..self }
    }

    /// The same, with steps timed or not.
    pub open spec fn with_profile(self, enabled: bool) -> SettingsModel {
        SettingsModel { profile_enabled: enabled, ..self }
    }
}

/// Every switch sets its own setting and no other: all four are as they were set last, and what
/// has no switch stays.
pub proof fn law_switches_are_independent(s: SettingsModel, a: bool, b: bool, c: bool, d: bool)
    ensures
        ({
            let t = s.with_sampling(a).with_chat_template(b).with_device_argmax(c).with_profile(d);
            &&& t.do_sample == a && t.use_chat_template == b && t.use_device_argmax == c
                && t.profile_enabled == d
            &&& t == s.with_profile(d).with_device_argmax(c).with_chat_template(b).with_sampling(a)
            &&& t.max_seq_len == s.max_seq_len && t.eos == s.eos && t.top_k == s.top_k
            &&& t.temperature == s.temperature && t.top_p == s.top_p
            &&& t.add_rms_block == s.add_rms_block && t.rms_hidden_block == s.rms_hidden_block
            &&& s.with_sampling(a).use_chat_template == s.use_chat_template
            &&& s.with_chat_template(b).do_sample == s.do_sample
            &&& s.with_device_argmax(c).profile_enabled == s.profile_enabled
            &&& s.with_profile(d).use_device_argmax == s.use_device_argmax
        }),
{
}

impl View for EngineSettings {
    type V = SettingsModel;

    open spec fn view(&self) -> SettingsModel {
        SettingsModel {
            max_seq_len: self.max_seq_len,
            eos: self.eos_token_ids@,
            do_sample: self.do_sample,
            temperature: self.temperature,
            top_k: self.top_k,
            top_p: self.top_p,
            use_chat_template: self.use_chat_template,
            use_device_argmax: self.use_device_argmax,
            add_rms_block: self.add_rms_block,
            rms_hidden_block: self.rms_hidden_block,
            profile_enabled: self.profile_enabled,
        }
    }
}

/// The tokens that end a text: those of the generation settings where it names some,
/// else the one of the model.
pub open spec fn eos_of(cfg: Qwen3Config, gen: Option<GenerationConfig>) -> Seq<u32> {
    match gen {
        Some(g) => match g.eos_token_id {
            Some(e) => e.tokens(),
            None => seq![cfg.eos_token_id],
        },
        None => seq![cfg.eos_token_id],
    }
}

/// Whether the surroundings ask for a profile: anything but `0` does.
pub open spec fn profile_of(raw: Option<Seq<char>>) -> bool {
    match raw {
        Some(s) => s != "0"@,
        None => false,
    }
}

/// The block of a norm of hidden states: the asked one where it is a power of two.
pub open spec fn hidden_block_of(raw: Option<Seq<char>>) -> usize {
    let asked = usize_or(raw, RMS_BLOCK_HIDDEN);
    if is_power_of_two(asked as nat) {
        asked
    } else {
        RMS_BLOCK_HIDDEN
    }
}

/// The settings of a model, or why it is not loaded.
pub open spec fn settings_of(
    cfg: Qwen3Config,
    gen: Option<GenerationConfig>,
    requested: Option<usize>,
    has_template: bool,
    env: LoadEnv,
) -> Result<SettingsModel, EngineLoadError> {
    if cfg.use_sliding_window {
        Err(EngineLoadError::SlidingWindow)
    } else if cfg.head_dim != ROPE_BLOCK {
        Err(EngineLoadError::HeadDim { head_dim: cfg.head_dim })
    } else {
        Ok(
            SettingsModel {
                max_seq_len: context_of(cfg, requested),
                eos: eos_of(cfg, gen),
                do_sample: gen matches Some(g) && g.do_sample == Some(true),
                temperature: match gen {
                    Some(g) => temperature_of(g.temperature),
                    None => temperature_of(None),
                },
                top_k: match gen {
                    Some(g) => match g.top_k {
                        Some(k) => k,
                        None => 0,
                    },
                    None => 0,
                },
                top_p: match gen {
                    Some(g) => top_p_of(g.top_p),
                    None => top_p_of(None),
                },
                use_chat_template: has_template,
                use_device_argmax: true,
                add_rms_block: usize_or(text_of(env.add_rms_block), ADD_RMS_BLOCK),
                rms_hidden_block: hidden_block_of(text_of(env.rms_hidden_block)),
                profile_enabled: profile_of(text_of(env.profile)),
            },
        )
    }
}

/// The settings of a model.
pub fn engine_settings(
    cfg: &Qwen3Config,
    gen: Option<GenerationConfig>,
    requested: Option<usize>,
    has_template: bool,
    env: &LoadEnv,
) -> (r: Result<EngineSettings, EngineLoadError>)
    ensures
        match r {
            Ok(s) => settings_of(*cfg, gen, requested, has_template, *env) == Ok::<
                SettingsModel,
                EngineLoadError,
            >(s@),
            Err(e) => settings_of(*cfg, gen, requested, has_template, *env) == Err::<
                SettingsModel,
                EngineLoadError,
            >(e),
        },
{
    if cfg.use_sliding_window {
        return Err(EngineLoadError::SlidingWindow);
    }
    if cfg.head_dim != ROPE_BLOCK {
        return Err(EngineLoadError::HeadDim { head_dim: cfg.head_dim });
    }
    let asked: usize = match requested {
        Some(n) => n,
        None => default_max_ctx_for_config(cfg),
    };
    let max_seq_len: usize = if asked <= cfg.max_position_embeddings {
        asked
    } else {
        cfg.max_position_embeddings
    };
    let mut eos_token_ids: Vec<u32> = vec![cfg.eos_token_id];
    assert(eos_token_ids@ =~= seq![cfg.eos_token_id]);
    let mut do_sample: bool = false;
    let mut temperature: u32 = temperature_or_default(None);
    let mut top_k: usize = 0;
    let mut top_p: u32 = top_p_or_default(None);
    if let Some(g) = gen {
        if let Some(eos) = g.eos_token_id {
            eos_token_ids = eos.into_vec();
        }
        do_sample = match g.do_sample {
            Some(b) => b,
            None => false,
        };
        temperature = temperature_or_default(g.temperature);
        top_k = match g.top_k {
            Some(k) => k,
            None => 0,
        };
        top_p = top_p_or_default(g.top_p);
    }
    let profile_enabled: bool = match env.profile {
        Some(v) => !same(v, "0"),
        None => false,
    };
    let s = EngineSettings {
        max_seq_len,
        eos_token_ids,
        do_sample,
        temperature,
        top_k,
        top_p,
        use_chat_template: has_template,
        use_device_argmax: true,
        add_rms_block: env_usize_or(env.add_rms_block, ADD_RMS_BLOCK),
        rms_hidden_block: rms_hidden_block(env_usize_or(env.rms_hidden_block, RMS_BLOCK_HIDDEN)),
        profile_enabled,
    };
    Ok(s)
}

impl EngineSettings {
    /// Whether tokens are chosen by chance.
    pub fn set_sampling_enabled(&mut self, enabled: bool)
        ensures
            final(self)@ == old(self)@.with_sampling(enabled),
    {
        self.do_sample = enabled;
    }

    /// Whether a prompt becomes a turn of the user.
    pub fn set_chat_template_enabled(&mut self, enabled: bool)
        ensures
            final(self)@ == old(self)@.with_chat_template(enabled),
    {
        self.use_chat_template = enabled;
    }

    /// Whether the device finds the greatest logit.
    pub fn set_device_argmax_enabled(&mut self, enabled: bool)
        ensures
            final(self)@ == old(self)@.with_device_argmax(enabled),
    {
        self.use_device_argmax = enabled;
    }

    /// Whether steps are timed.
    pub fn set_profile_enabled(&mut self, enabled: bool)
        ensures
            final(self)@ == old(self)@.with_profile(enabled),
    {
        self.profile_enabled = enabled;
    }

    /// Whether a text goes on past the tokens that end it. Once ignored they are forgotten.
    pub fn set_ignore_eos(&mut self, ignore: bool)
        ensures
            final(self)@ == (SettingsModel {
                eos: eos_after(old(self)@.eos, seq![ignore]),
                ..old(self)@
            }),
    {
        proof {
            reveal_with_fuel(eos_after, 2);
            assert(seq![ignore].drop_last() =~= Seq::<bool>::empty());
        }
        if ignore {
            self.eos_token_ids.clear();
        }
        assert(self@ =~= (SettingsModel {
            eos: eos_after(old(self)@.eos, seq![ignore]),
            ..old(self)@
        }));
    }
}

/// The tokens that end a text after they were ignored or not, time after time.
pub open spec fn eos_after(eos: Seq<u32>, ignored: Seq<bool>) -> Seq<u32>
    decreases ignored.len(),
{
    if ignored.len() == 0 {
        eos
    } else if ignored.last() {
        Seq::empty()
    } else {
        eos_after(eos, ignored.drop_last())
    }
}

/// Tokens that end a text, once ignored, stay so whatever is asked for later; and a
/// generation that came to its end has then all the tokens that were asked for.
pub proof fn law_ignored_eos_gives_all_tokens(
    eos: Seq<u32>,
    ignored: Seq<bool>,
    i: int,
    q: GenRequest,
    graph: bool,
    debug_logits: bool,
    events: Seq<GenEvent>,
)
    requires
        0 <= i < ignored.len(),
        ignored[i],
        q.eos == eos_after(eos, ignored),
        q.max_new >= 0,
    ensures
        eos_after(eos, ignored) == Seq::<u32>::empty(),
        gen_run(q, gen_start(q, graph, debug_logits), events).phase is Finished ==> gen_run(
            q,
            gen_start(q, graph, debug_logits),
            events,
        ).generated.len() == q.max_new,
    decreases ignored.len(),
{
    if !ignored.last() {
        assert(ignored.drop_last()[i] == ignored[i]);
        law_ignored_eos_gives_all_tokens(
            eos,
            ignored.drop_last(),
            i,
            q,
            graph,
            debug_logits,
            events,
        );
    }
    law_all_tokens_without_eos(q, graph, debug_logits, events);
}

/// Bytes of the key and value caches per token: two caches per layer, two bytes per
/// element.
pub open spec fn kv_token_bytes(cfg: Qwen3Config) -> int {
    cfg.num_hidden_layers * cfg.num_key_value_heads * cfg.head_dim * 2 * 2
}

/// Bytes of the key and value caches per token.
pub fn kv_bytes_per_token(cfg: &Qwen3Config) -> (r: Result<usize, EngineLoadError>)
    ensures
        r == (if cfg.num_hidden_layers * cfg.num_key_value_heads <= usize::MAX && kv_token_bytes(
            *cfg,
        ) <= usize::MAX {
            Ok::<usize, EngineLoadError>(kv_token_bytes(*cfg) as usize)
        } else {
            Err(EngineLoadError::KvBytesPerToken)
        }),
{
    let (l, h, d) = (cfg.num_hidden_layers, cfg.num_key_value_heads, cfg.head_dim);
    match l.checked_mul(h) {
        Some(a) => match a.checked_mul(d) {
            Some(b) => match b.checked_mul(2) {
                Some(c) => match c.checked_mul(2) {
                    Some(bytes) => Ok(bytes),
                    None => Err(EngineLoadError::KvBytesPerToken),
                },
                None => Err(EngineLoadError::KvBytesPerToken),
            },
            None => Err(EngineLoadError::KvBytesPerToken),
        },
        None => Err(EngineLoadError::KvBytesPerToken),
    }
}

/// The sum of sizes.
pub open spec fn sum_of(parts: Seq<usize>) -> int
    decreases parts.len(),
{
    if parts.len() == 0 {
        0
    } else {
        sum_of(parts.drop_last()) + parts.last()
    }
}

proof fn lemma_sum_prefix(parts: Seq<usize>, k: int)
    requires
        0 <= k <= parts.len(),
    ensures
        0 <= sum_of(parts.subrange(0, k)) <= sum_of(parts),
    decreases parts.len(),
{
    if k < parts.len() {
        lemma_sum_prefix(parts.drop_last(), k);
        assert(parts.drop_last().subrange(0, k) =~= parts.subrange(0, k));
    } else {
        assert(parts.subrange(0, k) =~= parts);
        if parts.len() > 0 {
            lemma_sum_prefix(parts.drop_last(), parts.len() - 1);
        }
    }
}

/// The sum of sizes, where it fits.
pub fn checked_sum_bytes(parts: &[usize]) -> (r: Result<usize, EngineLoadError>)
    ensures
        r == (if sum_of(parts@) <= usize::MAX {
            Ok::<usize, EngineLoadError>(sum_of(parts@) as usize)
        } else {
            Err(EngineLoadError::ByteTotal)
        }),
{
    let ghost all = parts@;
    let mut total: usize = 0;
    let mut i: usize = 0;
    assert(all.subrange(0, 0) =~= Seq::empty());
    while i < parts.len()
        invariant
            i <= parts.len(),
            all == parts@,
            total == sum_of(all.subrange(0, i as int)),
        decreases parts.len() - i,
    {
        assert(all.subrange(0, i + 1).drop_last() =~= all.subrange(0, i as int));
        match total.checked_add(parts[i]) {
            Some(t) => {
                total = t;
            },
            None => {
                proof {
                    lemma_sum_prefix(all, i + 1);
                }
                return Err(EngineLoadError::ByteTotal);
            },
        }
        i = i + 1;
    }
    assert(all.subrange(0, all.len() as int) =~= all);
    Ok(total)
}

/// What a model needs on the device, in bytes.
#[derive(Clone, Copy, Debug, PartialEq, Eq, Structural)]
pub struct VramNeed {
    pub weights: usize,
    pub kv: usize,
    pub scratch: usize,
    pub required: usize,
}

/// What a model needs, or why it is not loaded.
pub open spec fn preflight(
    weights: Result<usize, LoadError>,
    scratch: usize,
    max_ctx: usize,
    kv_per_token: usize,
    free: usize,
) -> Result<VramNeed, EngineLoadError> {
    match weights {
        Err(error) => Err(EngineLoadError::Weights { error }),
        Ok(w) => if max_ctx * kv_per_token > usize::MAX {
            Err(EngineLoadError::KvBytes)
        } else if w + max_ctx * kv_per_token + scratch + VRAM_SLACK_BYTES > usize::MAX {
            Err(EngineLoadError::ByteTotal)
        } else {
            let need = VramNeed {
                weights: w,
                kv: (max_ctx * kv_per_token) as usize,
                scratch,
                required: (w + max_ctx * kv_per_token + scratch + VRAM_SLACK_BYTES) as usize,
            };
            if need.required > free {
                Err(EngineLoadError::TooLarge { need, free })
            } else {
                Ok(need)
            }
        },
    }
}

/// The bytes of the weights of a loader.
pub open spec fn loader_weights(loader: WeightLoader) -> Result<usize, LoadError> {
    match loader {
        WeightLoader::Gguf { file, .. } => resident_total(file.content@.tensor_infos),
        WeightLoader::Sharded { weight_map, shards } => resident_index_total(
            weight_map@,
            shards@,
        ),
    }
}

/// Checks that a model fits the device before anything is allocated: its weights, the
/// caches of a whole context, the scratch of prefill, and some slack.
pub fn run_vram_preflight(
    loader: &WeightLoader,
    max_ctx: usize,
    kv_bytes_per_token: usize,
    free_bytes: usize,
) -> (r: Result<VramNeed, EngineLoadError>)
    ensures
        r == preflight(
            loader_weights(*loader),
            loader.scratch_bytes() as usize,
            max_ctx,
            kv_bytes_per_token,
            free_bytes,
        ),
{
    let weights: usize = match loader.resident_weight_bytes() {
        Ok(w) => w,
        Err(error) => {
            return Err(EngineLoadError::Weights { error });
        },
    };
    let kv: usize = match max_ctx.checked_mul(kv_bytes_per_token) {
        Some(n) => n,
        None => {
            return Err(EngineLoadError::KvBytes);
        },
    };
    let scratch: usize = loader.prefill_dequant_scratch_bytes();
    let parts: [usize; 4] = [weights, kv, scratch, VRAM_SLACK_BYTES];
    proof {
        let s = parts@;
        assert(s.len() == 4);
        reveal_with_fuel(sum_of, 5);
        assert(s.drop_last().drop_last().drop_last().drop_last().len() == 0);
        assert(sum_of(s) == weights + kv + scratch + VRAM_SLACK_BYTES);
    }
    let required: usize = checked_sum_bytes(&parts)?;
    let need = VramNeed { weights, kv, scratch, required };
    if required > free_bytes {
        return Err(EngineLoadError::TooLarge { need, free: free_bytes });
    }
    Ok(need)
}

/// A model that passes leaves the slack free.
pub proof fn law_preflight_leaves_slack(
    weights: Result<usize, LoadError>,
    scratch: usize,
    max_ctx: usize,
    kv_per_token: usize,
    free: usize,
)
    ensures
        preflight(weights, scratch, max_ctx, kv_per_token, free) matches Ok(need) ==> need.weights
            + need.kv + need.scratch + VRAM_SLACK_BYTES <= free,
{
}

/// A file in a directory: a separator stands between, unless the directory is empty or
/// ends in one.
pub open spec fn joined(dir: Seq<char>, file: Seq<char>) -> Seq<char> {
    if dir.len() == 0 || dir.last() == '/' {
        dir + file
    } else {
        dir.push('/') + file
    }
}

/// A file in a directory.
pub fn join_path(dir: &str, file: &str) -> (r: String)
    ensures
        r@ == joined(dir@, file@),
{
    let c: Vec<char> = chars(dir);
    let mut out: String = dir.to_owned();
    if c.len() > 0 && c[c.len() - 1] != '/' {
        out.push('/');
    }
    out.append(file);
    out
}

/// The directory in which `tokenizer.json` of a model is looked for: the model's own, or
/// the one of its GGUF file.
pub open spec fn tokenizer_dir(model: Seq<char>, parent: Option<Seq<char>>, is_gguf: bool) -> Seq<
    char,
> {
    if !is_gguf {
        model
    } else {
        match parent {
            Some(p) => p,
            None => "."@,
        }
    }
}

/// Where `tokenizer.json` of a model is looked for.
pub fn tokenizer_candidate(model: &str, parent: Option<&str>, is_gguf: bool) -> (r: String)
    ensures
        r@ == joined(tokenizer_dir(model@, text_of(parent), is_gguf), "tokenizer.json"@),
{
    if !is_gguf {
        join_path(model, "tokenizer.json")
    } else {
        match parent {
            Some(p) => join_path(p, "tokenizer.json"),
            None => join_path(".", "tokenizer.json"),
        }
    }
}

/// Where `tokenizer.json` of a model is. Next to a GGUF file it has to exist.
pub fn tokenizer_json_path(model: &str, parent: Option<&str>, is_gguf: bool, exists: bool) -> (r:
    Result<String, EngineLoadError>)
    ensures
        match r {
            Ok(p) => (!is_gguf || exists) && p@ == joined(
                tokenizer_dir(model@, text_of(parent), is_gguf),
                "tokenizer.json"@,
            ),
            Err(e) => is_gguf && !exists && e == EngineLoadError::NoTokenizer,
        },
{
    if is_gguf && !exists {
        return Err(EngineLoadError::NoTokenizer);
    }
    Ok(tokenizer_candidate(model, parent, is_gguf))
}

/// The tensors of a layer, in the order in which they are loaded.
#[derive(Clone, Copy, Debug, PartialEq, Eq, Structural)]
pub enum LayerTensor {
    QProj,
    KProj,
    VProj,
    GateProj,
    UpProj,
    InputNorm,
    PostAttentionNorm,
    QNorm,
    KNorm,
    OProj,
    DownProj,
}

impl LayerTensor {
    /// The name after the layer's.
    pub open spec fn suffix_text(self) -> Seq<char> {
        match self {
            LayerTensor::QProj => "self_attn.q_proj.weight"@,
            LayerTensor::KProj => "self_attn.k_proj.weight"@,
            LayerTensor::VProj => "self_attn.v_proj.weight"@,
            LayerTensor::GateProj => "mlp.gate_proj.weight"@,
            LayerTensor::UpProj => "mlp.up_proj.weight"@,
            LayerTensor::InputNorm => "input_layernorm.weight"@,
            LayerTensor::PostAttentionNorm => "post_attention_layernorm.weight"@,
            LayerTensor::QNorm => "self_attn.q_norm.weight"@,
            LayerTensor::KNorm => "self_attn.k_norm.weight"@,
            LayerTensor::OProj => "self_attn.o_proj.weight"@,
            LayerTensor::DownProj => "mlp.down_proj.weight"@,
        }
    }

    /// The name after the layer's.
    pub fn suffix(self) -> (r: &'static str)
        ensures
            r@ == self.suffix_text(),
    {
        match self {
            LayerTensor::QProj => "self_attn.q_proj.weight",
            LayerTensor::KProj => "self_attn.k_proj.weight",
            LayerTensor::VProj => "self_attn.v_proj.weight",
            LayerTensor::GateProj => "mlp.gate_proj.weight",
            LayerTensor::UpProj => "mlp.up_proj.weight",
            LayerTensor::InputNorm => "input_layernorm.weight",
            LayerTensor::PostAttentionNorm => "post_attention_layernorm.weight",
            LayerTensor::QNorm => "self_attn.q_norm.weight",
            LayerTensor::KNorm => "self_attn.k_norm.weight",
            LayerTensor::OProj => "self_attn.o_proj.weight",
            LayerTensor::DownProj => "mlp.down_proj.weight",
        }
    }

    /// Whether the tensor may stay in quantized blocks.
    pub open spec fn matrix(self) -> bool {
        self is QProj || self is KProj || self is VProj || self is GateProj || self is UpProj
            || self is OProj || self is DownProj
    }

    /// Whether the tensor may stay in quantized blocks.
    pub fn is_matrix(self) -> (r: bool)
        ensures
            r == self.matrix(),
    {
        match self {
            LayerTensor::InputNorm | LayerTensor::PostAttentionNorm | LayerTensor::QNorm
            | LayerTensor::KNorm => false,
            _ => true,
        }
    }
}

/// A tensor of the model.
#[derive(Clone, Copy, Debug, PartialEq, Eq, Structural)]
pub enum ModelTensor {
    Embedding,
    Head,
    Norm,
    Layer { layer: usize, tensor: LayerTensor },
}

impl ModelTensor {
    /// The name in the files.
    pub open spec fn name_text(self) -> Seq<char> {
        match self {
            ModelTensor::Embedding => "model.embed_tokens.weight"@,
            ModelTensor::Head => "lm_head.weight"@,
            ModelTensor::Norm => "model.norm.weight"@,
            ModelTensor::Layer { layer, tensor } => "model.layers."@ + decimal_text(layer as nat)
                + "."@ + tensor.suffix_text(),
        }
    }

    /// The name in the files.
    pub fn name(self) -> (r: String)
        ensures
            r@ == self.name_text(),
    {
        match self {
            ModelTensor::Embedding => "model.embed_tokens.weight".to_owned(),
            ModelTensor::Head => "lm_head.weight".to_owned(),
            ModelTensor::Norm => "model.norm.weight".to_owned(),
            ModelTensor::Layer { layer, tensor } => {
                let mut s: String = "model.layers.".to_owned();
                push_decimal(&mut s, layer);
                s.append(".");
                s.append(tensor.suffix());
                s
            },
        }
    }

    /// Whether the tensor may stay in quantized blocks.
    pub fn is_matrix(self) -> (r: bool)
        ensures
            r == (self is Embedding || self is Head || (self matches ModelTensor::Layer {
                tensor,
                ..
            } && tensor.matrix())),
    {
        match self {
            ModelTensor::Embedding => true,
            ModelTensor::Head => true,
            ModelTensor::Norm => false,
            ModelTensor::Layer { tensor, .. } => tensor.is_matrix(),
        }
    }
}

/// The tensors of a layer, in the order in which they are loaded.
pub const LAYER_TENSORS: [LayerTensor; 11] = [
    LayerTensor::QProj,
    LayerTensor::KProj,
    LayerTensor::VProj,
    LayerTensor::GateProj,
    LayerTensor::UpProj,
    LayerTensor::InputNorm,
    LayerTensor::PostAttentionNorm,
    LayerTensor::QNorm,
    LayerTensor::KNorm,
    LayerTensor::OProj,
    LayerTensor::DownProj,
];

/// The tensors before the layers. A head that is the embedding is not loaded again.
pub open spec fn top_tensors(tied: bool) -> Seq<ModelTensor> {
    if tied {
        seq![ModelTensor::Embedding, ModelTensor::Norm]
    } else {
        seq![ModelTensor::Embedding, ModelTensor::Head, ModelTensor::Norm]
    }
}

/// All tensors of a model, in the order in which they are loaded.
pub open spec fn tensors_of_model(layers: nat, tied: bool) -> Seq<ModelTensor> {
    top_tensors(tied) + Seq::new(
        11 * layers,
        |i: int|
            ModelTensor::Layer {
                layer: (i / 11) as usize,
                tensor: LAYER_TENSORS@[i % 11],
            },
    )
}

/// All tensors of a model, in the order in which they are loaded.
pub fn model_tensors(cfg: &Qwen3Config) -> (r: Vec<ModelTensor>)
    requires
        11 * cfg.num_hidden_layers + 3 <= usize::MAX,
    ensures
        r@ == tensors_of_model(cfg.num_hidden_layers as nat, cfg.tie_word_embeddings),
{
    let mut out: Vec<ModelTensor> = Vec::new();
    out.push(ModelTensor::Embedding);
    if !cfg.tie_word_embeddings {
        out.push(ModelTensor::Head);
    }
    out.push(ModelTensor::Norm);
    let ghost top = top_tensors(cfg.tie_word_embeddings);
    assert(out@ =~= top);
    let count: usize = 11 * cfg.num_hidden_layers;
    let mut i: usize = 0;
    while i < count
        invariant
            i <= count,
            count == 11 * cfg.num_hidden_layers,
            out@.len() == top.len() + i,
            forall|k: int| 0 <= k < top.len() ==> out@[k] == top[k],
            forall|k: int|
                #![trigger out@[top.len() + k]]
                0 <= k < i ==> out@[top.len() + k] == (ModelTensor::Layer {
                    layer: (k / 11) as usize,
                    tensor: LAYER_TENSORS@[k % 11],
                }),
        decreases count - i,
    {
        out.push(ModelTensor::Layer { layer: i / 11, tensor: LAYER_TENSORS[i % 11] });
        i = i + 1;
    }
    let ghost want = tensors_of_model(cfg.num_hidden_layers as nat, cfg.tie_word_embeddings);
    assert forall|k: int| 0 <= k < want.len() implies out@[k] == want[k] by {
        if k >= top.len() {
            assert(out@[top.len() + (k - top.len())] == want[k]);
        }
    }
    assert(out@ =~= want);
    out
}

/// Every tensor of every layer is loaded, and loaded once.
pub proof fn law_tensors_are_loaded_once(layers: nat, tied: bool, layer: usize, tensor: LayerTensor)
    requires
        layer < layers,
        layers <= usize::MAX,
    ensures
        exists|i: int|
            #![trigger tensors_of_model(layers, tied)[i]]
            0 <= i < tensors_of_model(layers, tied).len() && tensors_of_model(layers, tied)[i]
                == (ModelTensor::Layer { layer, tensor }),
        forall|i: int, j: int|
            #![trigger tensors_of_model(layers, tied)[i], tensors_of_model(layers, tied)[j]]
            0 <= i < j < tensors_of_model(layers, tied).len() ==> tensors_of_model(layers, tied)[i]
                != tensors_of_model(layers, tied)[j],
{
    let all = tensors_of_model(layers, tied);
    let top = top_tensors(tied).len() as int;
    let t: int = match tensor {
        LayerTensor::QProj => 0,
        LayerTensor::KProj => 1,
        LayerTensor::VProj => 2,
        LayerTensor::GateProj => 3,
        LayerTensor::UpProj => 4,
        LayerTensor::InputNorm => 5,
        LayerTensor::PostAttentionNorm => 6,
        LayerTensor::QNorm => 7,
        LayerTensor::KNorm => 8,
        LayerTensor::OProj => 9,
        LayerTensor::DownProj => 10,
    };
    let at = 11 * layer + t;
    assert(LAYER_TENSORS@[t] == tensor);
    assert(at / 11 == layer && at % 11 == t);
    assert(all[top + at] == (ModelTensor::Layer { layer, tensor }));
    assert forall|i: int, j: int|
        #![trigger all[i], all[j]]
        0 <= i < j < all.len() implies all[i] != all[j] by {
        if i >= top {
            let (a, b) = (i - top, j - top);
            assert(all[i] == (ModelTensor::Layer {
                layer: (a / 11) as usize,
                tensor: LAYER_TENSORS@[a % 11],
            }));
            assert(all[j] == (ModelTensor::Layer {
                layer: (b / 11) as usize,
                tensor: LAYER_TENSORS@[b % 11],
            }));
            if a / 11 == b / 11 {
                assert(a % 11 != b % 11);
                lemma_layer_tensors_differ(a % 11, b % 11);
            }
        } else if j >= top {
            assert(all[j] is Layer);
            assert(!(all[i] is Layer));
        }
    }
}

proof fn lemma_layer_tensors_differ(a: int, b: int)
    requires
        0 <= a < 11,
        0 <= b < 11,
        a != b,
    ensures
        LAYER_TENSORS@[a] != LAYER_TENSORS@[b],
{
}

/// The parts of all matrices of a layer, in order.
pub open spec fn parts_of_layer(l: LayerWeights) -> Seq<Weight> {
    l.qkv_proj.stack() + l.o_proj.stack() + l.gate_up_proj.stack() + l.down_proj.stack()
}

/// The parts of all layers, in order.
pub open spec fn layer_parts(layers: Seq<LayerWeights>) -> Seq<Weight>
    decreases layers.len(),
{
    if layers.len() == 0 {
        Seq::empty()
    } else {
        layer_parts(layers.drop_last()) + parts_of_layer(layers.last())
    }
}

/// The greatest of what `f` gives for quantized parts; `None` where there is none.
pub open spec fn greatest_quantized(parts: Seq<Weight>, f: spec_fn(Weight) -> int) -> Option<int>
    decreases parts.len(),
{
    if parts.len() == 0 {
        None
    } else {
        let before = greatest_quantized(parts.drop_last(), f);
        if parts.last() is F16 {
            before
        } else {
            match before {
                Some(n) => if f(parts.last()) > n {
                    Some(f(parts.last()))
                } else {
                    Some(n)
                },
                None => Some(f(parts.last())),
            }
        }
    }
}

/// No quantized part has more, and one has as much.
pub proof fn law_greatest_quantized(parts: Seq<Weight>, f: spec_fn(Weight) -> int)
    ensures
        match greatest_quantized(parts, f) {
            Some(n) => (exists|i: int|
                0 <= i < parts.len() && !((#[trigger] parts[i]) is F16) && f(parts[i]) == n)
                && forall|i: int|
                0 <= i < parts.len() && !((#[trigger] parts[i]) is F16) ==> f(parts[i]) <= n,
            None => forall|i: int| 0 <= i < parts.len() ==> (#[trigger] parts[i]) is F16,
        },
    decreases parts.len(),
{
    if parts.len() > 0 {
        let rest = parts.drop_last();
        law_greatest_quantized(rest, f);
        assert forall|i: int| 0 <= i < parts.len() - 1 implies parts[i] == rest[i] by {}
        match greatest_quantized(rest, f) {
            Some(n) => {
                let i = choose|i: int|
                    0 <= i < rest.len() && !((#[trigger] rest[i]) is F16) && f(rest[i]) == n;
                assert(parts[i] == rest[i]);
                assert(parts[parts.len() - 1] == parts.last());
            },
            None => {
                assert(parts[parts.len() - 1] == parts.last());
            },
        }
    }
}

/// The greatest of a concatenation.
proof fn lemma_greatest_join(a: Seq<Weight>, b: Seq<Weight>, f: spec_fn(Weight) -> int)
    ensures
        greatest_quantized(a + b, f) == greater(greatest_quantized(a, f), greatest_quantized(b, f)),
    decreases b.len(),
{
    if b.len() == 0 {
        assert(a + b =~= a);
    } else {
        lemma_greatest_join(a, b.drop_last(), f);
        assert((a + b).drop_last() =~= a + b.drop_last());
        assert((a + b).last() == b.last());
    }
}

/// The greater of two, where there are two.
pub open spec fn greater(a: Option<int>, b: Option<int>) -> Option<int> {
    match (a, b) {
        (Some(m), Some(n)) => if n > m {
            Some(n)
        } else {
            Some(m)
        },
        (Some(m), None) => Some(m),
        (None, Some(n)) => Some(n),
        (None, None) => None,
    }
}

/// The elements of a part.
pub open spec fn part_elems() -> spec_fn(Weight) -> int {
    |w: Weight| matrix_elems(w.dims())
}

/// The rows of a part.
pub open spec fn part_rows() -> spec_fn(Weight) -> int {
    |w: Weight| w.dims()[0] as int
}

/// Every quantized part is a matrix whose elements can be counted.
pub open spec fn countable_parts(parts: Seq<Weight>) -> bool {
    forall|i: int| 0 <= i < parts.len() ==> (#[trigger] parts[i]).countable()
}

fn keep_greater(a: Option<usize>, b: Option<usize>) -> (r: Option<usize>)
    ensures
        (match r {
            Some(n) => Some(n as int),
            None => None,
        }) == greater(
            match a {
                Some(n) => Some(n as int),
                None => None,
            },
            match b {
                Some(n) => Some(n as int),
                None => None,
            },
        ),
{
    match (a, b) {
        (Some(m), Some(n)) => if n > m {
            Some(n)
        } else {
            Some(m)
        },
        (Some(m), None) => Some(m),
        (None, Some(n)) => Some(n),
        (None, None) => None,
    }
}

fn most_elems(m: &MatrixWeight) -> (r: Option<usize>)
    requires
        countable_parts(m.stack()),
    ensures
        greatest_quantized(m.stack(), part_elems()) == (match r {
            Some(n) => Some(n as int),
            None => None,
        }),
{
    let r: Option<usize> = m.max_quantized_elems();
    proof {
        law_greatest_quantized(m.stack(), part_elems());
    }
    r
}

fn most_rows(m: &MatrixWeight) -> (r: Option<usize>)
    requires
        countable_parts(m.stack()),
    ensures
        greatest_quantized(m.stack(), part_rows()) == (match r {
            Some(n) => Some(n as int),
            None => None,
        }),
{
    let parts: &[Weight] = m.parts();
    let ghost all = m.stack();
    let mut best: Option<usize> = None;
    let mut i: usize = 0;
    assert(all.subrange(0, 0) =~= Seq::empty());
    while i < parts.len()
        invariant
            i <= parts@.len(),
            parts@ == all,
            countable_parts(all),
            greatest_quantized(all.subrange(0, i as int), part_rows()) == (match best {
                Some(n) => Some(n as int),
                None => None,
            }),
        decreases parts@.len() - i,
    {
        assert(all.subrange(0, i + 1).drop_last() =~= all.subrange(0, i as int));
        let part: &Weight = &parts[i];
        assert(*part == all[i as int]);
        if part.is_quantized() {
            best = keep_greater(best, Some(part.rows()));
        }
        i = i + 1;
    }
    assert(all.subrange(0, all.len() as int) =~= all);
    best
}

/// Where the parts of all layers can be counted, those of each matrix can.
proof fn lemma_countable(layers: Seq<LayerWeights>, i: int)
    requires
        countable_parts(layer_parts(layers)),
        0 <= i < layers.len(),
    ensures
        countable_parts(layers[i].qkv_proj.stack()),
        countable_parts(layers[i].o_proj.stack()),
        countable_parts(layers[i].gate_up_proj.stack()),
        countable_parts(layers[i].down_proj.stack()),
    decreases layers.len(),
{
    let before = layer_parts(layers.drop_last());
    let whole = layer_parts(layers);
    let last = layers.last();
    let (q, o, g, d) = (
        last.qkv_proj.stack(),
        last.o_proj.stack(),
        last.gate_up_proj.stack(),
        last.down_proj.stack(),
    );
    let n = before.len() as int;
    if i < layers.len() - 1 {
        assert forall|k: int| 0 <= k < before.len() implies (#[trigger] before[k]).countable() by {
            assert(before[k] == whole[k]);
        }
        lemma_countable(layers.drop_last(), i);
        assert(layers.drop_last()[i] == layers[i]);
    } else {
        assert forall|k: int| 0 <= k < q.len() implies (#[trigger] q[k]).countable() by {
            assert(q[k] == whole[n + k]);
        }
        assert forall|k: int| 0 <= k < o.len() implies (#[trigger] o[k]).countable() by {
            assert(o[k] == whole[n + q.len() + k]);
        }
        assert forall|k: int| 0 <= k < g.len() implies (#[trigger] g[k]).countable() by {
            assert(g[k] == whole[n + q.len() + o.len() + k]);
        }
        assert forall|k: int| 0 <= k < d.len() implies (#[trigger] d[k]).countable() by {
            assert(d[k] == whole[n + q.len() + o.len() + g.len() + k]);
        }
    }
}

/// The greatest of all layers, one layer at a time.
proof fn lemma_greatest_layer(layers: Seq<LayerWeights>, k: int, f: spec_fn(Weight) -> int)
    requires
        0 <= k < layers.len(),
    ensures
        greatest_quantized(layer_parts(layers.subrange(0, k + 1)), f) == greater(
            greater(
                greater(
                    greater(
                        greatest_quantized(layer_parts(layers.subrange(0, k)), f),
                        greatest_quantized(layers[k].qkv_proj.stack(), f),
                    ),
                    greatest_quantized(layers[k].o_proj.stack(), f),
                ),
                greatest_quantized(layers[k].gate_up_proj.stack(), f),
            ),
            greatest_quantized(layers[k].down_proj.stack(), f),
        ),
{
    let before = layer_parts(layers.subrange(0, k));
    let l = layers[k];
    assert(layers.subrange(0, k + 1).drop_last() =~= layers.subrange(0, k));
    let (q, o, g, d) = (
        l.qkv_proj.stack(),
        l.o_proj.stack(),
        l.gate_up_proj.stack(),
        l.down_proj.stack(),
    );
    assert(layer_parts(layers.subrange(0, k + 1)) =~= before + q + o + g + d);
    lemma_greatest_join(before, q, f);
    lemma_greatest_join(before + q, o, f);
    lemma_greatest_join(before + q + o, g, f);
    lemma_greatest_join(before + q + o + g, d, f);
}

fn stack_is_countable(m: &MatrixWeight) -> (r: bool)
    ensures
        r == countable_parts(m.stack()),
{
    let parts: &[Weight] = m.parts();
    let mut i: usize = 0;
    while i < parts.len()
        invariant
            i <= parts@.len(),
            parts@ == m.stack(),
            forall|k: int| 0 <= k < i ==> (#[trigger] parts@[k]).countable(),
        decreases parts@.len() - i,
    {
        if !parts[i].is_countable() {
            assert(!m.stack()[i as int].countable());
            return false;
        }
        i = i + 1;
    }
    true
}

/// The parts of a layer and of the layers before it can be counted where both can.
proof fn lemma_countable_join(layers: Seq<LayerWeights>, i: int)
    requires
        0 <= i < layers.len(),
    ensures
        countable_parts(layer_parts(layers.subrange(0, i + 1))) == (countable_parts(
            layer_parts(layers.subrange(0, i)),
        ) && countable_parts(layers[i].qkv_proj.stack()) && countable_parts(
            layers[i].o_proj.stack(),
        ) && countable_parts(layers[i].gate_up_proj.stack()) && countable_parts(
            layers[i].down_proj.stack(),
        )),
{
    let some = layers.subrange(0, i + 1);
    assert(some.drop_last() =~= layers.subrange(0, i));
    let before = layer_parts(layers.subrange(0, i));
    let whole = layer_parts(some);
    if countable_parts(whole) {
        lemma_countable(some, i);
        assert forall|k: int| 0 <= k < before.len() implies (#[trigger] before[k]).countable() by {
            assert(before[k] == whole[k]);
        }
    }
}

/// Whether the elements of every quantized part of the layers can be counted.
pub fn layers_are_countable(layers: &[LayerWeights]) -> (r: bool)
    ensures
        r == countable_parts(layer_parts(layers@)),
{
    let ghost all = layers@;
    let mut fits: bool = true;
    let mut i: usize = 0;
    assert(all.subrange(0, 0) =~= Seq::empty());
    while i < layers.len()
        invariant
            i <= layers@.len(),
            all == layers@,
            fits == countable_parts(layer_parts(all.subrange(0, i as int))),
        decreases layers@.len() - i,
    {
        let l: &LayerWeights = &layers[i];
        proof {
            lemma_countable_join(all, i as int);
        }
        fits = fits && stack_is_countable(&l.qkv_proj) && stack_is_countable(&l.o_proj)
            && stack_is_countable(&l.gate_up_proj) && stack_is_countable(&l.down_proj);
        i = i + 1;
    }
    assert(all.subrange(0, all.len() as int) =~= all);
    fits
}

/// The most elements of a quantized part of any layer: the size of the scratch that
/// prefill needs.
pub fn max_transformer_quant_weight_elems(layers: &[LayerWeights]) -> (r: Option<usize>)
    requires
        countable_parts(layer_parts(layers@)),
    ensures
        greatest_quantized(layer_parts(layers@), part_elems()) == (match r {
            Some(n) => Some(n as int),
            None => None,
        }),
{
    let ghost all = layers@;
    let mut best: Option<usize> = None;
    let mut i: usize = 0;
    assert(all.subrange(0, 0) =~= Seq::empty());
    while i < layers.len()
        invariant
            i <= layers@.len(),
            all == layers@,
            countable_parts(layer_parts(all)),
            greatest_quantized(layer_parts(all.subrange(0, i as int)), part_elems()) == (match best {
                Some(n) => Some(n as int),
                None => None,
            }),
        decreases layers@.len() - i,
    {
        let l: &LayerWeights = &layers[i];
        proof {
            lemma_countable(all, i as int);
            lemma_greatest_layer(all, i as int, part_elems());
        }
        best = keep_greater(best, most_elems(&l.qkv_proj));
        best = keep_greater(best, most_elems(&l.o_proj));
        best = keep_greater(best, most_elems(&l.gate_up_proj));
        best = keep_greater(best, most_elems(&l.down_proj));
        i = i + 1;
    }
    assert(all.subrange(0, all.len() as int) =~= all);
    best
}

/// The most rows of a quantized part of any layer; 1 where no part is quantized.
pub fn max_decode_quant_gemv_part_rows(layers: &[LayerWeights]) -> (r: usize)
    requires
        countable_parts(layer_parts(layers@)),
    ensures
        r == (match greatest_quantized(layer_parts(layers@), part_rows()) {
            Some(n) => n,
            None => 1,
        }),
{
    let ghost all = layers@;
    let mut best: Option<usize> = None;
    let mut i: usize = 0;
    assert(all.subrange(0, 0) =~= Seq::empty());
    while i < layers.len()
        invariant
            i <= layers@.len(),
            all == layers@,
            countable_parts(layer_parts(all)),
            greatest_quantized(layer_parts(all.subrange(0, i as int)), part_rows()) == (match best {
                Some(n) => Some(n as int),
                None => None,
            }),
        decreases layers@.len() - i,
    {
        let l: &LayerWeights = &layers[i];
        proof {
            lemma_countable(all, i as int);
            lemma_greatest_layer(all, i as int, part_rows());
        }
        best = keep_greater(best, most_rows(&l.qkv_proj));
        best = keep_greater(best, most_rows(&l.o_proj));
        best = keep_greater(best, most_rows(&l.gate_up_proj));
        best = keep_greater(best, most_rows(&l.down_proj));
        i = i + 1;
    }
    assert(all.subrange(0, all.len() as int) =~= all);
    match best {
        Some(n) => n,
        None => 1,
    }
}

} // verus!
