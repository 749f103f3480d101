//! Settings, caches and memory of a model agree with each other.
use crate::caches::{
    cache_bytes, cache_dims, clear_steps, emptied, greedy_path, lacks, launch_inputs,
    law_lent_caches_come_back, lent, logits_path, owned, prompt_begins, prompt_ends, reclaimed,
    step_check, AfterPrompt, BeforePrompt, CacheError, LayerState, StepError, TokenPath,
};
use crate::config::{
    first_bad_size, positive_finite, ConfigError, EosTokenId, GenerationConfig, Qwen3Config,
    SizeField,
};
use crate::engine::{
    context_of, default_ctx, hidden_block_of, joined, kv_token_bytes, preflight, profile_of,
    settings_of, sum_of, tensors_of_model, tokenizer_dir, EngineLoadError, LoadEnv, ModelTensor,
};
use crate::float_laws::{double_value, law_double_order, law_single_order, single_value};
use crate::gguf::{dims_product, Float};
use crate::knobs::{
    bool_hint_or, bool_or, heads_that_fit, is_power_of_two, law_floor_pow2, lpt_swizzle_spec,
    usize_hint_or, usize_or,
};
use crate::loader::LoadError;
use crate::sampling::{temperature_of, top_p_of};
use crate::text::{decimal_text, law_decimal_round_trip, lower_all, trim_spec};
use vstd::prelude::*;

verus! {

/// Clearing reaches every cache of every layer and nothing else: the steps at `2 * i` and
/// after it clear the two caches of layer `i`.
pub proof fn law_clearing_reaches_every_cache(caches: Seq<(usize, usize)>, bytes: usize, i: int)
    requires
        0 <= i < caches.len(),
    ensures
        clear_steps(caches, bytes).len() == 2 * caches.len(),
        clear_steps(caches, bytes)[2 * i].buffer == caches[i].0,
        clear_steps(caches, bytes)[2 * i + 1].buffer == caches[i].1,
        clear_steps(caches, bytes)[2 * i].bytes == bytes,
        clear_steps(caches, bytes)[2 * i + 1].bytes == bytes,
{
    assert((2 * i) / 2 == i && (2 * i + 1) / 2 == i);
}

/// A cache is cleared whole, and the memory that is asked for before loading is what the
/// caches of all layers take: of each cache two bytes per element of its shape, of each layer
/// one cache of keys and one of values.
pub proof fn law_caches_take_what_is_counted(cfg: Qwen3Config, max_ctx: usize)
    requires
        cfg.num_key_value_heads * max_ctx <= usize::MAX,
        cfg.num_key_value_heads * max_ctx * cfg.head_dim <= usize::MAX,
    ensures
        dims_product(cache_dims(cfg.num_key_value_heads, max_ctx, cfg.head_dim)) is Some,
        cache_bytes(cfg.num_key_value_heads, max_ctx, cfg.head_dim) == 2 * dims_product(
            cache_dims(cfg.num_key_value_heads, max_ctx, cfg.head_dim),
        )->0,
        2 * cfg.num_hidden_layers * cache_bytes(cfg.num_key_value_heads, max_ctx, cfg.head_dim)
            == max_ctx * kv_token_bytes(cfg),
{
    let (h, m, d, l) = (
        cfg.num_key_value_heads as int,
        max_ctx as int,
        cfg.head_dim as int,
        cfg.num_hidden_layers as int,
    );
    let s = cache_dims(cfg.num_key_value_heads, max_ctx, cfg.head_dim);
    reveal_with_fuel(dims_product, 4);
    assert(s.drop_last() =~= seq![s[0], s[1]]);
    assert(s.drop_last().drop_last() =~= seq![s[0]]);
    assert(s.drop_last().drop_last().drop_last() =~= Seq::<usize>::empty());
    assert(dims_product(seq![s[0]]) == Some(s[0])) by {
        assert(seq![s[0]].drop_last() =~= Seq::<usize>::empty());
        assert(1 * s[0] == s[0]);
    }
    assert(2 * l * (h * m * d * 2) == m * (l * h * d * 2 * 2)) by (nonlinear_arith);
}

/// A model that passes fits: what it needs is the sum of its parts, its caches hold a whole
/// context, and 700 MiB stay free beside them.
pub proof fn law_preflight_counts_everything(
    w: usize,
    scratch: usize,
    max_ctx: usize,
    kv_per_token: usize,
    free: usize,
)
    ensures
        ({
            let kv = max_ctx * kv_per_token;
            let required = w + kv + scratch + 700 * 1024 * 1024;
            let r = preflight(Ok::<usize, LoadError>(w), scratch, max_ctx, kv_per_token, free);
            &&& r is Ok <==> kv <= usize::MAX && required <= free
            &&& r matches Ok(n) ==> n.weights == w && n.kv == kv && n.scratch == scratch
                && n.required == required
            &&& r matches Err(EngineLoadError::TooLarge { need, free: f }) ==> f == free
                && need.weights == w && need.kv == kv && need.scratch == scratch && need.required
                == required && required > free
        }),
{
    assert(max_ctx * kv_per_token >= 0) by (nonlinear_arith)
        requires
            max_ctx >= 0,
            kv_per_token >= 0,
    ;
}

/// Sizes add up in any split.
pub proof fn law_sizes_add_up(a: Seq<usize>, b: Seq<usize>, x: usize)
    ensures
        sum_of(a + b) == sum_of(a) + sum_of(b),
        sum_of(seq![x]) == x,
    decreases b.len(),
{
    assert(seq![x].drop_last() =~= Seq::<usize>::empty());
    assert(sum_of(seq![x].drop_last()) == 0);
    assert(seq![x].last() == x);
    if b.len() == 0 {
        assert(a + b =~= a);
    } else {
        law_sizes_add_up(a, b.drop_last(), x);
        assert((a + b).drop_last() =~= a + b.drop_last());
    }
}

/// Who holds the caches.
pub enum Holder {
    Layers,
    Recording,
}

/// Who holds the caches while a prompt is processed.
pub open spec fn holder_during(before: Holder, b: BeforePrompt) -> Holder {
    match b {
        BeforePrompt::ClearAndLend => Holder::Layers,
        BeforePrompt::Allocate => Holder::Layers,
    }
}

/// Who holds the caches after a prompt, where recording succeeds.
pub open spec fn holder_after(during: Holder, a: AfterPrompt) -> Holder {
    match a {
        AfterPrompt::Reclaim => Holder::Recording,
        AfterPrompt::Record => Holder::Recording,
        AfterPrompt::Keep => during,
    }
}

/// Caches are used by who holds them: a prompt is processed by the layers, out of caches that
/// are clear; after it they are with the recorded steps where there are any, and are lent only
/// where they were recorded over.
pub proof fn law_caches_are_with_their_user(
    recorded: bool,
    graph_decode: bool,
    max_new: usize,
    caches: Seq<(usize, usize)>,
    layers: Seq<LayerState>,
)
    requires
        caches.len() == layers.len(),
    ensures
        prompt_begins(recorded) is ClearAndLend <==> recorded,
        prompt_ends(recorded, graph_decode, max_new) is Reclaim <==> recorded,
        holder_after(
            holder_during(Holder::Recording, prompt_begins(recorded)),
            prompt_ends(recorded, graph_decode, max_new),
        ) is Recording <==> recorded || (graph_decode && max_new >= 1),
        owned(lent(caches, layers), layers.len()) == caches,
        forall|i: int|
            0 <= i < layers.len() ==> #[trigger] lent(caches, layers)[i].k_cache == Some(
                caches[i].0,
            ) && lent(caches, layers)[i].v_cache == Some(caches[i].1),
        forall|i: int|
            0 <= i < layers.len() ==> #[trigger] emptied(layers, layers.len() as int)[i].k_cache
                is None && emptied(layers, layers.len() as int)[i].v_cache is None,
{
    assert(owned(lent(caches, layers), layers.len()) =~= caches);
}

/// A token goes to its position and attends to itself and all before it: as many keys as the
/// position of the token after it says.
pub proof fn law_token_attends_up_to_itself(position: usize, flash: bool)
    requires
        position < i32::MAX,
    ensures
        launch_inputs(position, flash) matches Ok(x) && x.position == position && (x.s_kv is Some
            <==> flash) && (x.s_kv matches Some(n) ==> n == position + 1),
        launch_inputs(position, true)->Ok_0.s_kv->0 == launch_inputs(
            (position + 1) as usize,
            true,
        )->Ok_0.position,
{
}

/// The tokens of a step stay within the context: it is accepted where there is one and the
/// position of each lies before the end, and else refused.
pub proof fn law_step_stays_within(tokens: usize, start: usize, max: usize, p: int)
    requires
        start + tokens <= usize::MAX,
        0 <= p < tokens,
    ensures
        step_check(tokens, start, max) is Ok ==> start + p < max,
        start + p >= max ==> step_check(tokens, start, max) == Err::<(), StepError>(
            StepError::Range { start, end: (start + tokens) as usize, max },
        ),
        start + tokens - 1 < max ==> step_check(tokens, start, max) is Ok,
        step_check(0, start, max) == Err::<(), StepError>(StepError::NoTokens),
{
}

/// A token is replayed only where steps were recorded, and for logits only where these keep
/// them; both kinds of decoding accept the same positions.
pub proof fn law_paths_agree(position: usize, max: usize, recorded: bool, logits: bool)
    ensures
        greedy_path(position, max, recorded) is Ok <==> position < max,
        logits_path(position, max, recorded, logits) is Ok <==> position < max,
        position >= max ==> greedy_path(position, max, recorded) == Err::<TokenPath, StepError>(
            StepError::PastContext { position, max },
        ),
        greedy_path(position, max, recorded) == logits_path(position, max, recorded, true),
        position < max ==> (greedy_path(position, max, recorded)->Ok_0 is Recorded <==> recorded),
        position < max ==> (logits_path(position, max, recorded, logits)->Ok_0 is Recorded <==>
            recorded && logits),
{
}

/// A context is never longer than the model has positions nor than was asked for, and one of
/// the two; without a wish it is 32768, for models of hidden size 4096 and more 16384.
pub proof fn law_context_is_bounded(cfg: Qwen3Config, asked: usize)
    ensures
        context_of(cfg, Some(asked)) <= asked,
        context_of(cfg, Some(asked)) <= cfg.max_position_embeddings,
        context_of(cfg, Some(asked)) == asked || context_of(cfg, Some(asked))
            == cfg.max_position_embeddings,
        context_of(cfg, None) == context_of(cfg, Some(default_ctx(cfg))),
        cfg.hidden_size < 4096 ==> default_ctx(cfg) == 32768,
        cfg.hidden_size >= 4096 ==> default_ctx(cfg) == 16384,
{
}

/// Settings of the generation go before those of the model, each by itself; what they leave
/// open has its default: greedy, temperature and bound 1.0, no limit on ranks.
pub proof fn law_settings_have_defaults(
    cfg: Qwen3Config,
    gen: GenerationConfig,
    asked: Option<usize>,
    template: bool,
    env: LoadEnv,
)
    requires
        settings_of(cfg, Some(gen), asked, template, env) is Ok,
    ensures
        ({
            let with = settings_of(cfg, Some(gen), asked, template, env)->Ok_0;
            let without = settings_of(cfg, None, asked, template, env)->Ok_0;
            &&& settings_of(cfg, None, asked, template, env) is Ok
            &&& with.max_seq_len == context_of(cfg, asked) && without.max_seq_len
                == with.max_seq_len
            &&& without.eos == seq![cfg.eos_token_id]
            &&& !without.do_sample
            &&& without.temperature == 0x3f80_0000 && without.top_p == 0x3f80_0000
            &&& without.top_k == 0
            &&& gen.eos_token_id is None ==> with.eos == without.eos
            &&& gen.eos_token_id matches Some(EosTokenId::One(t)) ==> with.eos == seq![t]
            &&& gen.eos_token_id matches Some(EosTokenId::Many(ts)) ==> with.eos == ts@
            &&& with.do_sample == (gen.do_sample is Some && gen.do_sample->0)
            &&& gen.temperature is None ==> with.temperature == without.temperature
            &&& gen.temperature is Some ==> with.temperature == temperature_of(gen.temperature)
            &&& gen.top_k is None ==> with.top_k == without.top_k
            &&& gen.top_k matches Some(k) ==> with.top_k == k
            &&& gen.top_p is None ==> with.top_p == without.top_p
            &&& gen.top_p is Some ==> with.top_p == top_p_of(gen.top_p)
            &&& with.use_chat_template == template && with.use_device_argmax
            &&& with.profile_enabled == without.profile_enabled
        }),
{
}

/// A model is refused for a sliding window first, then for a head dimension other than 128, and
/// for nothing else.
pub proof fn law_models_are_refused(
    cfg: Qwen3Config,
    gen: Option<GenerationConfig>,
    asked: Option<usize>,
    template: bool,
    env: LoadEnv,
)
    ensures
        settings_of(cfg, gen, asked, template, env) is Ok <==> !cfg.use_sliding_window
            && cfg.head_dim == 128,
        cfg.use_sliding_window ==> settings_of(cfg, gen, asked, template, env)->Err_0
            == EngineLoadError::SlidingWindow,
        !cfg.use_sliding_window && cfg.head_dim != 128 ==> settings_of(
            cfg,
            gen,
            asked,
            template,
            env,
        )->Err_0 == (EngineLoadError::HeadDim { head_dim: cfg.head_dim }),
{
}

/// Numbers of the surroundings count where they are positive; the block of a norm also has to
/// be a power of two. A written number reads as itself.
pub proof fn law_numbers_are_positive(n: usize, default: usize)
    ensures
        usize_or(None, default) == default,
        usize_or(Some(decimal_text(n as nat)), default) == (if n == 0 {
            default
        } else {
            n
        }),
        usize_or(Some(Seq::empty()), default) == default,
        hidden_block_of(None) == 512,
        hidden_block_of(Some(decimal_text(n as nat))) == (if is_power_of_two(n as nat) {
            n
        } else {
            512
        }),
{
    law_decimal_round_trip(n);
    assert(is_power_of_two(512)) by {
        reveal_with_fuel(is_power_of_two, 12);
    }
}

/// Flags of the surroundings: `0` is false, every other text true; where nothing is said the
/// default holds, but no profile is made.
pub proof fn law_flags(s: Seq<char>, default: bool)
    ensures
        bool_or(None, default) == default,
        bool_or(Some(s), default) == (s != "0"@),
        profile_of(None) == false,
        profile_of(Some(s)) == bool_or(Some(s), default),
{
}

/// Hints: `default`, `none` and `unset` in any case leave a hint to the compiler, as does `0`
/// for a number; what is no number gives the default. White space around a text never counts.
pub proof fn law_hints(s: Seq<char>, n: usize, flag: bool)
    ensures
        usize_hint_or(None, n) == Some(n),
        bool_hint_or(None, flag) == Some(flag),
        usize_hint_or(Some(s), n) is None <==> trim_spec(s) == "0"@ || lower_all(trim_spec(s))
            == lower_all("default"@) || lower_all(trim_spec(s)) == lower_all("none"@) || lower_all(
            trim_spec(s),
        ) == lower_all("unset"@),
        usize_hint_or(Some(s), n) matches Some(m) ==> m == usize_or(Some(trim_spec(s)), n),
        bool_hint_or(Some(s), flag) is None <==> lower_all(trim_spec(s)) == lower_all("default"@)
            || lower_all(trim_spec(s)) == lower_all("none"@) || lower_all(trim_spec(s))
            == lower_all("unset"@),
        bool_hint_or(Some(s), flag) matches Some(b) ==> b == bool_or(Some(trim_spec(s)), flag),
{
}

/// Head groups work together as long as their keys and values stay in the cache: more than one
/// group only where all of them fit, and no twice as many would, unless that is all there are.
pub proof fn law_swizzle_fills_the_cache(q_len: usize, head_dim: usize, groups: usize, l2: usize)
    requires
        groups >= 1,
        q_len >= 1,
        head_dim >= 1,
        4 * (q_len * head_dim) <= usize::MAX,
    ensures
        1 <= lpt_swizzle_spec(q_len, head_dim, groups, l2) <= groups,
        lpt_swizzle_spec(q_len, head_dim, groups, l2) == groups || is_power_of_two(
            lpt_swizzle_spec(q_len, head_dim, groups, l2) as nat,
        ),
        lpt_swizzle_spec(q_len, head_dim, groups, l2) > 1 ==> lpt_swizzle_spec(
            q_len,
            head_dim,
            groups,
            l2,
        ) * (4 * (q_len * head_dim)) <= l2,
        lpt_swizzle_spec(q_len, head_dim, groups, l2) < groups ==> 2 * lpt_swizzle_spec(
            q_len,
            head_dim,
            groups,
            l2,
        ) * (4 * (q_len * head_dim)) > l2,
{
    let bytes = 4 * (q_len * head_dim);
    let fit = heads_that_fit(q_len, head_dim, l2);
    assert(q_len * head_dim >= 1) by (nonlinear_arith)
        requires
            q_len >= 1,
            head_dim >= 1,
    ;
    assert(head_dim * 2 <= usize::MAX) by (nonlinear_arith)
        requires
            4 * (q_len * head_dim) <= usize::MAX,
            q_len >= 1,
            head_dim >= 1,
    ;
    assert(q_len * (head_dim * 2) == 2 * (q_len * head_dim)) by (nonlinear_arith);
    assert(crate::knobs::kv_head_bytes(q_len, head_dim) == bytes);
    law_floor_pow2(fit as nat);
    let p = crate::knobs::floor_pow2(fit as nat) as int;
    let r = lpt_swizzle_spec(q_len, head_dim, groups, l2);
    let n = l2 as int / bytes;
    assert(n * bytes <= l2 && l2 < (n + 1) * bytes) by (nonlinear_arith)
        requires
            n == l2 as int / bytes,
            bytes >= 1,
    ;
    if r > 1 {
        assert(r * bytes <= l2) by (nonlinear_arith)
            requires
                r <= n,
                n * bytes <= l2,
                bytes >= 1,
        ;
    }
    if r < groups {
        assert(2 * r * bytes > l2) by (nonlinear_arith)
            requires
                2 * r >= n + 1,
                l2 < (n + 1) * bytes,
                bytes >= 1,
        ;
    }
}

/// A configuration is valid exactly where every size lies between one and its bound, the query
/// heads split evenly over the key and value heads, the head dimension is even, and both
/// numbers are positive and finite.
pub proof fn law_config_is_checked(c: Qwen3Config)
    ensures
        c.valid() <==> {
            &&& 1 <= c.vocab_size <= 16777216
            &&& 1 <= c.hidden_size <= 1048576
            &&& 1 <= c.intermediate_size <= 4194304
            &&& 1 <= c.num_hidden_layers <= 4096
            &&& 1 <= c.num_attention_heads <= 4096
            &&& 1 <= c.num_key_value_heads <= 4096
            &&& 1 <= c.head_dim <= 4096
            &&& 1 <= c.max_position_embeddings <= 33554432
            &&& c.num_attention_heads as int % c.num_key_value_heads as int == 0
            &&& c.head_dim % 2 == 0
            &&& positive_finite(c.rms_norm_eps)
            &&& positive_finite(c.rope_theta)
        },
{
    if c.valid() {
        crate::config::law_valid_config(c);
    } else if let Some(f) = first_bad_size(c.sizes()) {
        lemma_bad_size(c.sizes());
        let i = choose|i: int| 0 <= i < c.sizes().len() && #[trigger] c.sizes()[i] == f;
        assert(i == 0 || i == 1 || i == 2 || i == 3 || i == 4 || i == 5 || i == 6 || i == 7);
    }
}

proof fn lemma_bad_size(fields: Seq<(SizeField, usize, usize)>)
    requires
        first_bad_size(fields) is Some,
    ensures
        exists|i: int|
            0 <= i < fields.len() && #[trigger] fields[i] == first_bad_size(fields)->0 && !(1
                <= fields[i].1 <= fields[i].2),
        first_bad_size(fields) matches Some((_, value, max)) ==> !(1 <= value <= max),
    decreases fields.len(),
{
    if first_bad_size(fields.drop_last()) is Some {
        lemma_bad_size(fields.drop_last());
        let i = choose|i: int|
            0 <= i < fields.drop_last().len() && #[trigger] fields.drop_last()[i]
                == first_bad_size(fields.drop_last())->0 && !(1 <= fields.drop_last()[i].1
                <= fields.drop_last()[i].2);
        assert(fields[i] == fields.drop_last()[i]);
    } else {
        assert(fields[fields.len() - 1] == fields.last());
    }
}

/// A refused configuration is told by a size that is out of range, with its value and its
/// bound; only where all sizes are in range by the heads, then the head dimension, then the
/// numbers.
pub proof fn law_config_errors(c: Qwen3Config)
    ensures
        c.check() matches Err(ConfigError::Range { field, value, max }) ==> !(1 <= value <= max)
            && (match field {
            SizeField::VocabSize => value == c.vocab_size && max == 16777216,
            SizeField::HiddenSize => value == c.hidden_size && max == 1048576,
            SizeField::IntermediateSize => value == c.intermediate_size && max == 4194304,
            SizeField::NumHiddenLayers => value == c.num_hidden_layers && max == 4096,
            SizeField::NumAttentionHeads => value == c.num_attention_heads && max == 4096,
            SizeField::NumKeyValueHeads => value == c.num_key_value_heads && max == 4096,
            SizeField::HeadDim => value == c.head_dim && max == 4096,
            SizeField::MaxPositionEmbeddings => value == c.max_position_embeddings && max
                == 33554432,
        }),
        c.check() matches Err(ConfigError::HeadGrouping { heads, kv_heads }) ==> heads
            == c.num_attention_heads && kv_heads == c.num_key_value_heads && heads as int
            % kv_heads as int != 0,
        c.check() matches Err(ConfigError::OddHeadDim { head_dim }) ==> head_dim == c.head_dim
            && head_dim % 2 == 1,
        c.check() == Err::<(), ConfigError>(ConfigError::Epsilon) ==> !positive_finite(
            c.rms_norm_eps,
        ),
        c.check() == Err::<(), ConfigError>(ConfigError::Theta) ==> !positive_finite(c.rope_theta),
{
    if let Some(f) = first_bad_size(c.sizes()) {
        lemma_bad_size(c.sizes());
        let i = choose|i: int| 0 <= i < c.sizes().len() && #[trigger] c.sizes()[i] == f;
        assert(i == 0 || i == 1 || i == 2 || i == 3 || i == 4 || i == 5 || i == 6 || i == 7);
    }
}

/// A single-precision number is positive and finite by its value; a double-precision one
/// between what rounds to zero and what rounds to infinity.
pub proof fn law_positive_and_finite(s: u32, d: u64)
    ensures
        positive_finite(Float::Single { bits: s }) <==> single_value(s) is Some && 0 < single_value(
            s,
        )->0 < single_value(0x7f80_0000)->0,
        positive_finite(Float::Double { bits: d }) <==> double_value(d) is Some && double_value(
            0x3690_0000_0000_0000,
        )->0 < double_value(d)->0 < double_value(0x47ef_ffff_f000_0000)->0,
{
    law_single_order(0, s);
    law_single_order(s, 0x7f80_0000);
    assert(single_value(0) == Some(0int));
    law_double_order(0x3690_0000_0000_0000, d);
    law_double_order(d, 0x47ef_ffff_f000_0000);
}

/// The tensors outside the layers: the embedding and the last norm always, a head only where it
/// is not the embedding; none of them twice.
pub proof fn law_top_tensors(layers: nat, tied: bool)
    ensures
        ({
            let all = tensors_of_model(layers, tied);
            &&& all.contains(ModelTensor::Embedding)
            &&& all.contains(ModelTensor::Norm)
            &&& all.contains(ModelTensor::Head) <==> !tied
            &&& all.len() == 11 * layers + (if tied {
                2int
            } else {
                3
            })
        }),
{
    let all = tensors_of_model(layers, tied);
    assert(all[0] == ModelTensor::Embedding);
    assert(all[all.len() - 11 * layers - 1] == ModelTensor::Norm);
    if tied {
        if all.contains(ModelTensor::Head) {
            let i = choose|i: int| 0 <= i < all.len() && all[i] == ModelTensor::Head;
            assert(i == 0 || i == 1 || all[i] is Layer);
        }
    } else {
        assert(all[1] == ModelTensor::Head);
    }
}

/// Files stand in their directory: a path ends in the name of the file, which a separator
/// sets apart from a directory that does not end in one.
pub proof fn law_paths(dir: Seq<char>, last: char, file: Seq<char>)
    ensures
        joined(Seq::empty(), file) == file,
        joined(dir.push('/'), file) == dir.push('/') + file,
        last != '/' ==> joined(dir.push(last), file) == joined(dir.push(last).push('/'), file),
        tokenizer_dir(dir, None, false) == dir,
        tokenizer_dir(dir, Some(file), false) == dir,
        tokenizer_dir(dir, Some(file), true) == file,
        tokenizer_dir(dir, None, true) == "."@,
{
    assert(Seq::<char>::empty() + file =~= file);
}

/// Reclaiming what was lent gives it back: the caches are those that were lent, in order, and
/// the layers hold none.
pub proof fn law_reclaiming_gives_back(
    caches: Seq<(usize, usize)>,
    layers: Seq<LayerState>,
    now: Seq<(usize, usize)>,
    left: Seq<LayerState>,
    r: Result<(), CacheError>,
)
    requires
        caches.len() == layers.len(),
        reclaimed(Seq::empty(), lent(caches, layers), now, left, r),
    ensures
        r is Ok,
        now == caches,
        left.len() == layers.len(),
        forall|i: int| 0 <= i < left.len() ==> (#[trigger] left[i]).k_cache is None,
        forall|i: int| 0 <= i < left.len() ==> (#[trigger] left[i]).v_cache is None,
{
    law_lent_caches_come_back(caches, layers);
    let l = lent(caches, layers);
    assert(l.len() == layers.len());
    if r is Err {
        let i = choose|i: int| #[trigger] lacks(l, i);
        assert(!lacks(l, i));
    }
    assert(Seq::<(usize, usize)>::empty() + caches =~= caches);
}

/// The first layer without a cache is named, and what the layers before it held is kept.
pub proof fn law_missing_caches_are_named(
    layers: Seq<LayerState>,
    now: Seq<(usize, usize)>,
    left: Seq<LayerState>,
    r: Result<(), CacheError>,
    i: int,
)
    requires
        layers.len() <= usize::MAX,
        reclaimed(Seq::empty(), layers, now, left, r),
        0 <= i < layers.len(),
    ensures
        layers[i].k_cache is None || layers[i].v_cache is None ==> r is Err,
        r matches Err(CacheError::MissingKey { layer }) ==> layers[layer as int].k_cache is None
            && (i < layer ==> now[i] == (layers[i].k_cache->0, layers[i].v_cache->0)),
        r matches Err(CacheError::MissingValue { layer }) ==> layers[layer as int].k_cache is Some
            && layers[layer as int].v_cache is None && (i < layer ==> now[i] == (
            layers[i].k_cache->0,
            layers[i].v_cache->0,
        )),
{
    assert(lacks(layers, i) == (layers[i].k_cache is None || layers[i].v_cache is None));
}

} // verus!
