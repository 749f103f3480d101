//! Key and value caches: who owns them, and how a step may use them.
use crate::config::Qwen3Config;
use crate::forward::{
    bad_output_projection, build_step_graph, dims_of, fits, step_keys, step_ops, step_result,
    LayerWeights,
};
use crate::pool_plan::GraphError;
use crate::step_graph::StepGraph;
use vstd::prelude::*;

verus! {

/// The caches of one layer, by their buffers, while the layer owns them.
#[derive(Clone, Copy, Debug, PartialEq, Eq, Structural)]
pub struct LayerState {
    pub k_cache: Option<usize>,
    pub v_cache: Option<usize>,
}

/// Why caches do not come back.
#[derive(Clone, Copy, Debug, PartialEq, Eq, Structural)]
pub enum CacheError {
    MissingKey { layer: usize },
    MissingValue { layer: usize },
}

/// The layers once they own these caches, one pair each from the first layer on.
pub open spec fn lent(caches: Seq<(usize, usize)>, layers: Seq<LayerState>) -> Seq<LayerState> {
    Seq::new(
        layers.len(),
        |i: int|
            if i < caches.len() {
                LayerState { k_cache: Some(caches[i].0), v_cache: Some(caches[i].1) }
            } else {
                layers[i]
            },
    )
}

/// Whether layer `i` lacks a cache.
pub open spec fn lacks(layers: Seq<LayerState>, i: int) -> bool {
    0 <= i < layers.len() && (layers[i].k_cache is None || layers[i].v_cache is None)
}

/// The caches that the first `n` layers own.
pub open spec fn owned(layers: Seq<LayerState>, n: nat) -> Seq<(usize, usize)> {
    Seq::new(n, |i: int| (layers[i].k_cache->0, layers[i].v_cache->0))
}

/// The layers once the first `n` gave their caches away.
pub open spec fn emptied(layers: Seq<LayerState>, n: int) -> Seq<LayerState> {
    Seq::new(
        layers.len(),
        |i: int|
            if i < n {
                LayerState { k_cache: None, v_cache: None }
            } else {
                layers[i]
            },
    )
}

/// Hands the caches of the recorded steps to the layers, so that prefill fills them.
pub fn lend_kv_caches_to_layers(caches: &mut Vec<(usize, usize)>, layers: &mut Vec<LayerState>)
    requires
        old(caches)@.len() <= old(layers)@.len(),
    ensures
        final(caches)@ == Seq::<(usize, usize)>::empty(),
        final(layers)@ == lent(old(caches)@, old(layers)@),
{
    let ghost all = caches@;
    let ghost before = layers@;
    let mut i: usize = 0;
    while i < caches.len()
        invariant
            i <= caches@.len(),
            caches@ == all,
            all.len() <= before.len(),
            layers@.len() == before.len(),
            forall|k: int|
                0 <= k < i ==> (#[trigger] layers@[k]) == (LayerState {
                    k_cache: Some(all[k].0),
                    v_cache: Some(all[k].1),
                }),
            forall|k: int| i <= k < before.len() ==> (#[trigger] layers@[k]) == before[k],
        decreases caches@.len() - i,
    {
        let (k, v) = caches[i];
        layers.set(i, LayerState { k_cache: Some(k), v_cache: Some(v) });
        i = i + 1;
    }
    caches.clear();
    assert(layers@ =~= lent(all, before));
}

/// What taking the caches back from the layers leads to: from caches and layers `c` and `l` to
/// `caches` and `layers`, with this result.
pub open spec fn reclaimed(
    c: Seq<(usize, usize)>,
    l: Seq<LayerState>,
    caches: Seq<(usize, usize)>,
    layers: Seq<LayerState>,
    r: Result<(), CacheError>,
) -> bool {
    match r {
        Ok(_) => {
            &&& forall|i: int| !lacks(l, i)
            &&& caches == c + owned(l, l.len())
            &&& layers == emptied(l, l.len() as int)
        },
        Err(e) => exists|i: int|
            {
                &&& #[trigger] lacks(l, i)
                &&& forall|k: int| k < i ==> !lacks(l, k)
                &&& caches == c + owned(l, i as nat)
                &&& layers == emptied(l, i).update(
                    i,
                    LayerState {
                        k_cache: None,
                        v_cache: if l[i].k_cache is None {
                            l[i].v_cache
                        } else {
                            None
                        },
                    },
                )
                &&& e == (if l[i].k_cache is None {
                    CacheError::MissingKey { layer: i as usize }
                } else {
                    CacheError::MissingValue { layer: i as usize }
                })
            },
    }
}

/// Takes the caches back from the layers. Stops at the first layer that lacks one; what
/// it took before stays taken.
pub fn reclaim_kv_caches_from_layers(
    caches: &mut Vec<(usize, usize)>,
    layers: &mut Vec<LayerState>,
) -> (r: Result<(), CacheError>)
    ensures
        reclaimed(old(caches)@, old(layers)@, final(caches)@, final(layers)@, r),
{
    let ghost start = caches@;
    let ghost before = layers@;
    let mut i: usize = 0;
    assert(start + owned(before, 0) =~= start);
    assert(emptied(before, 0) =~= before);
    while i < layers.len()
        invariant
            i <= layers@.len(),
            start == old(caches)@,
            before == old(layers)@,
            layers@ == emptied(before, i as int),
            caches@ == start + owned(before, i as nat),
            forall|k: int| 0 <= k < i ==> !lacks(before, k),
        decreases layers@.len() - i,
    {
        let state: LayerState = layers[i];
        assert(state == before[i as int]);
        match state.k_cache {
            None => {
                assert(lacks(before, i as int));
                assert(layers@ =~= emptied(before, i as int).update(
                    i as int,
                    LayerState { k_cache: None, v_cache: before[i as int].v_cache },
                ));
                return Err(CacheError::MissingKey { layer: i });
            },
            Some(k) => {
                layers.set(i, LayerState { k_cache: None, v_cache: None });
                match state.v_cache {
                    None => {
                        assert(lacks(before, i as int));
                        return Err(CacheError::MissingValue { layer: i });
                    },
                    Some(v) => {
                        caches.push((k, v));
                    },
                }
            },
        }
        assert(layers@ =~= emptied(before, i + 1));
        assert(caches@ =~= start + owned(before, (i + 1) as nat));
        i = i + 1;
    }
    assert forall|k: int| !lacks(before, k) by {}
    Ok(())
}

/// Settles who owns the caches once recording over them ended: recorded steps take them from
/// the layers; where recording failed every layer still holds its own, so that tokens go on
/// step by step.
pub fn after_recording(
    recorded: bool,
    caches: &mut Vec<(usize, usize)>,
    layers: &mut Vec<LayerState>,
) -> (r: Result<(), CacheError>)
    ensures
        recorded ==> reclaimed(old(caches)@, old(layers)@, final(caches)@, final(layers)@, r),
        !recorded ==> r == Ok::<(), CacheError>(()),
        !recorded ==> final(caches)@ == old(caches)@ && final(layers)@ == old(layers)@,
{
    if recorded {
        reclaim_kv_caches_from_layers(caches, layers)
    } else {
        Ok(())
    }
}

/// Lending undoes itself: what was lent to as many layers comes back as it was.
pub proof fn law_lent_caches_come_back(caches: Seq<(usize, usize)>, layers: Seq<LayerState>)
    requires
        caches.len() == layers.len(),
    ensures
        forall|i: int| !lacks(lent(caches, layers), i),
        owned(lent(caches, layers), layers.len()) == caches,
        emptied(lent(caches, layers), layers.len() as int) == Seq::new(
            layers.len(),
            |i: int| LayerState { k_cache: None, v_cache: None },
        ),
{
    assert(owned(lent(caches, layers), layers.len()) =~= caches);
    assert(emptied(lent(caches, layers), layers.len() as int) =~= Seq::new(
        layers.len(),
        |i: int| LayerState { k_cache: None, v_cache: None },
    ));
}

/// The shape of a cache: heads, positions, head dimension.
pub open spec fn cache_dims(kv_heads: usize, max_seq_len: usize, head_dim: usize) -> Seq<usize> {
    seq![kv_heads, max_seq_len, head_dim]
}

/// The shape of a cache.
pub fn cache_shape(kv_heads: usize, max_seq_len: usize, head_dim: usize) -> (r: Vec<usize>)
    ensures
        r@ == cache_dims(kv_heads, max_seq_len, head_dim),
{
    let v: Vec<usize> = vec![kv_heads, max_seq_len, head_dim];
    assert(v@ =~= seq![kv_heads, max_seq_len, head_dim]);
    v
}

/// A stretch of a buffer to clear.
#[derive(Clone, Copy, Debug, PartialEq, Eq, Structural)]
pub struct ClearBytes {
    pub buffer: usize,
    pub bytes: usize,
}

/// What clears caches: each key cache and then its value cache, whole.
pub open spec fn clear_steps(caches: Seq<(usize, usize)>, bytes: usize) -> Seq<ClearBytes> {
    Seq::new(
        2 * caches.len(),
        |i: int|
            ClearBytes {
                buffer: if i % 2 == 0 {
                    caches[i / 2].0
                } else {
                    caches[i / 2].1
                },
                bytes,
            },
    )
}

/// Bytes of a cache, two per element.
pub open spec fn cache_bytes(kv_heads: usize, max_seq_len: usize, head_dim: usize) -> int {
    kv_heads * max_seq_len * head_dim * 2
}

/// What clears the caches of the recorded steps.
pub fn zero_kv_caches(
    caches: &Vec<(usize, usize)>,
    kv_heads: usize,
    max_seq_len: usize,
    head_dim: usize,
) -> (r: Vec<ClearBytes>)
    requires
        kv_heads * max_seq_len <= usize::MAX,
        cache_bytes(kv_heads, max_seq_len, head_dim) <= usize::MAX,
    ensures
        r@ == clear_steps(caches@, cache_bytes(kv_heads, max_seq_len, head_dim) as usize),
{
    assert(kv_heads * max_seq_len * head_dim >= 0) by (nonlinear_arith)
        requires
            kv_heads >= 0,
            max_seq_len >= 0,
            head_dim >= 0,
    ;
    let bytes: usize = kv_heads * max_seq_len * head_dim * 2;
    let mut out: Vec<ClearBytes> = Vec::new();
    let mut i: usize = 0;
    while i < caches.len()
        invariant
            i <= caches@.len(),
            out@ == clear_steps(caches@.subrange(0, i as int), bytes),
        decreases caches@.len() - i,
    {
        let (k, v) = caches[i];
        out.push(ClearBytes { buffer: k, bytes });
        out.push(ClearBytes { buffer: v, bytes });
        let ghost now = caches@.subrange(0, i + 1);
        assert forall|j: int| 0 <= j < 2 * (i + 1) implies out@[j] == clear_steps(now, bytes)[j] by {
            if j < 2 * i {
                assert(clear_steps(caches@.subrange(0, i as int), bytes)[j] == out@[j]);
                assert(now[j / 2] == caches@.subrange(0, i as int)[j / 2]);
            }
        }
        assert(out@ =~= clear_steps(now, bytes));
        i = i + 1;
    }
    assert(caches@.subrange(0, caches@.len() as int) =~= caches@);
    out
}

/// What happens to the caches before a prompt.
#[derive(Clone, Copy, Debug, PartialEq, Eq, Structural)]
pub enum BeforePrompt {
    /// The recorded steps clear their caches in place and lend them to the layers.
    ClearAndLend,
    /// The layers get new caches.
    Allocate,
}

/// What happens to the caches after a prompt.
#[derive(Clone, Copy, Debug, PartialEq, Eq, Structural)]
pub enum AfterPrompt {
    /// The recorded steps take their caches back.
    Reclaim,
    /// Steps are recorded over the caches of the layers; where that fails, tokens go on
    /// step by step.
    Record,
    /// Nothing.
    Keep,
}

/// What is done before a prompt: with recorded steps their caches are cleared and lent.
pub open spec fn prompt_begins(recorded: bool) -> BeforePrompt {
    if recorded {
        BeforePrompt::ClearAndLend
    } else {
        BeforePrompt::Allocate
    }
}

/// What is done after a prompt: recorded steps take their caches back; where there are none,
/// they are recorded if they are wanted and a token is to come.
pub open spec fn prompt_ends(recorded: bool, graph_decode: bool, max_new: usize) -> AfterPrompt {
    if recorded {
        AfterPrompt::Reclaim
    } else if graph_decode && max_new > 0 {
        AfterPrompt::Record
    } else {
        AfterPrompt::Keep
    }
}

/// Before a prompt.
pub fn before_prompt(recorded: bool) -> (r: BeforePrompt)
    ensures
        r == prompt_begins(recorded),
{
    if recorded {
        BeforePrompt::ClearAndLend
    } else {
        BeforePrompt::Allocate
    }
}

/// After a prompt with `max_new` tokens to come: steps are recorded where they are wanted.
pub fn after_prompt(recorded: bool, graph_decode: bool, max_new: usize) -> (r: AfterPrompt)
    ensures
        r == prompt_ends(recorded, graph_decode, max_new),
{
    if recorded {
        AfterPrompt::Reclaim
    } else if graph_decode && max_new > 0 {
        AfterPrompt::Record
    } else {
        AfterPrompt::Keep
    }
}

/// How one token is processed in a session.
#[derive(Clone, Copy, Debug, PartialEq, Eq, Structural)]
pub enum TokenPath {
    /// By the recorded steps.
    Recorded,
    /// Step by step.
    Steps,
}

/// Why a token or a stretch of tokens cannot be processed.
#[derive(Clone, Copy, Debug, PartialEq, Eq, Structural)]
pub enum StepError {
    NoTokens,
    /// The positions run past the context.
    Range { start: usize, end: usize, max: usize },
    /// A single position lies past the context.
    PastContext { position: usize, max: usize },
    /// The recorded steps do not keep logits.
    NoLogits,
    /// The position does not fit the device's number.
    Position { position: usize },
}

/// The path of a token whose logits are wanted, or why it is refused.
pub open spec fn logits_path(
    position: usize,
    max_seq_len: usize,
    recorded: bool,
    logits_valid: bool,
) -> Result<TokenPath, StepError> {
    if position >= max_seq_len {
        Err(StepError::PastContext { position, max: max_seq_len })
    } else if recorded && logits_valid {
        Ok(TokenPath::Recorded)
    } else {
        Ok(TokenPath::Steps)
    }
}

/// The path of a token after which the most likely one is wanted, or why it is refused.
pub open spec fn greedy_path(position: usize, max_seq_len: usize, recorded: bool) -> Result<
    TokenPath,
    StepError,
> {
    if position >= max_seq_len {
        Err(StepError::PastContext { position, max: max_seq_len })
    } else if recorded {
        Ok(TokenPath::Recorded)
    } else {
        Ok(TokenPath::Steps)
    }
}

/// The path of a token whose logits are wanted: recorded steps that keep logits.
pub fn decode_logits_path(
    position: usize,
    max_seq_len: usize,
    recorded: bool,
    logits_valid: bool,
) -> (r: Result<TokenPath, StepError>)
    ensures
        r == logits_path(position, max_seq_len, recorded, logits_valid),
{
    if position >= max_seq_len {
        return Err(StepError::PastContext { position, max: max_seq_len });
    }
    if recorded && logits_valid {
        Ok(TokenPath::Recorded)
    } else {
        Ok(TokenPath::Steps)
    }
}

/// The path of a token after which the most likely one is wanted: recorded steps.
pub fn decode_greedy_path(position: usize, max_seq_len: usize, recorded: bool) -> (r: Result<
    TokenPath,
    StepError,
>)
    ensures
        r == greedy_path(position, max_seq_len, recorded),
{
    if position >= max_seq_len {
        return Err(StepError::PastContext { position, max: max_seq_len });
    }
    if recorded {
        Ok(TokenPath::Recorded)
    } else {
        Ok(TokenPath::Steps)
    }
}

/// What goes to the device before the recorded steps run: the position and, for flash
/// decoding, the count of positions with the new one.
#[derive(Clone, Copy, Debug, PartialEq, Eq, Structural)]
pub struct LaunchInputs {
    pub position: u32,
    pub s_kv: Option<i32>,
}

/// What the recorded steps get for a position.
pub open spec fn launch_inputs(position: usize, flash_decode: bool) -> Result<
    LaunchInputs,
    StepError,
> {
    if position > u32::MAX {
        Err(StepError::Position { position })
    } else {
        Ok(
            LaunchInputs {
                position: position as u32,
                s_kv: if flash_decode {
                    Some((position + 1) as i32)
                } else {
                    None
                },
            },
        )
    }
}

/// What the recorded steps get for a position.
pub fn launch_step(position: usize, flash_decode: bool) -> (r: Result<LaunchInputs, StepError>)
    ensures
        r == launch_inputs(position, flash_decode),
{
    if position > u32::MAX as usize {
        return Err(StepError::Position { position });
    }
    let s_kv: Option<i32> = if flash_decode {
        Some((position as u64 + 1) as i32)
    } else {
        None
    };
    Ok(LaunchInputs { position: position as u32, s_kv })
}

/// What lies on the device while steps are recorded: the position and the count of positions
/// with it.
#[derive(Clone, Copy, Debug, PartialEq, Eq, Structural)]
pub struct RecordingInputs {
    pub position: u32,
    pub s_kv: i32,
}

/// What lies on the device while steps are recorded after `prompt` tokens. The steps run once
/// before and while they are recorded, and what they put into the caches goes to the position
/// behind the prompt, so that the prompt stays. It is what a replay for that position gets.
pub fn recording_inputs(prompt: usize) -> (r: Result<RecordingInputs, StepError>)
    ensures
        r == (if prompt > u32::MAX {
            Err::<RecordingInputs, StepError>(StepError::Position { position: prompt })
        } else {
            Ok(RecordingInputs { position: prompt as u32, s_kv: (prompt + 1) as i32 })
        }),
        r matches Ok(x) ==> x.position == prompt && launch_inputs(prompt, true) == Ok::<
            LaunchInputs,
            StepError,
        >(LaunchInputs { position: x.position, s_kv: Some(x.s_kv) }),
        r matches Err(e) ==> launch_inputs(prompt, true) == Err::<LaunchInputs, StepError>(e),
{
    if prompt > u32::MAX as usize {
        return Err(StepError::Position { position: prompt });
    }
    Ok(RecordingInputs { position: prompt as u32, s_kv: (prompt as u64 + 1) as i32 })
}

/// What the recorded steps get for a position whose logits are wanted.
pub fn launch_step_with_logits(
    position: usize,
    flash_decode: bool,
    logits_valid: bool,
) -> (r: Result<LaunchInputs, StepError>)
    ensures
        r == (if !logits_valid {
            Err::<LaunchInputs, StepError>(StepError::NoLogits)
        } else {
            launch_inputs(position, flash_decode)
        }),
{
    if !logits_valid {
        return Err(StepError::NoLogits);
    }
    launch_step(position, flash_decode)
}

/// Whether tokens from `start` on fit the context.
pub open spec fn step_check(tokens: usize, start: usize, max_seq_len: usize) -> Result<
    (),
    StepError,
> {
    if tokens == 0 {
        Err(StepError::NoTokens)
    } else if start + tokens > max_seq_len {
        Err(StepError::Range { start, end: (start + tokens) as usize, max: max_seq_len })
    } else {
        Ok(())
    }
}

/// Whether tokens from `start` on fit the context.
pub fn check_step(tokens: usize, start: usize, max_seq_len: usize) -> (r: Result<(), StepError>)
    requires
        start + tokens <= usize::MAX,
    ensures
        r == step_check(tokens, start, max_seq_len),
{
    if tokens == 0 {
        return Err(StepError::NoTokens);
    }
    if start + tokens > max_seq_len {
        return Err(StepError::Range { start, end: start + tokens, max: max_seq_len });
    }
    Ok(())
}

/// Step graphs of one model that were built, by the count of tokens.
#[derive(Debug)]
pub struct StepGraphCache {
    cfg: Qwen3Config,
    graphs: Vec<KeptGraph>,
}

/// A step graph that was built for a count of tokens, with or without a fused prefill.
#[derive(Debug)]
pub struct KeptGraph {
    pub seqlen: usize,
    pub fused_prefill: bool,
    pub graph: StepGraph,
}

/// The graph is that of the forward step of a model for a count of tokens.
pub open spec fn is_step(
    cfg: Qwen3Config,
    seqlen: usize,
    fused_prefill: bool,
    g: StepGraph,
) -> bool {
    let p = dims_of(cfg, seqlen, fused_prefill);
    &&& seqlen > 0
    &&& g.wf()
    &&& g.countable()
    &&& g.models() == step_ops(p)
    &&& g.keys() == step_keys(p)
    &&& g.final_value == step_result(p)
}

impl StepGraphCache {
    /// The graphs, in the order in which they were built.
    pub closed spec fn kept(&self) -> Seq<KeptGraph> {
        self.graphs@
    }

    /// The model of the steps.
    pub closed spec fn model(&self) -> Qwen3Config {
        self.cfg
    }

    /// No count has two graphs, and each graph is that of the step of its count.
    pub open spec fn wf(&self) -> bool {
        &&& forall|i: int, j: int|
            #![trigger self.kept()[i], self.kept()[j]]
            0 <= i < j < self.kept().len() ==> self.kept()[i].seqlen != self.kept()[j].seqlen
        &&& forall|i: int|
            0 <= i < self.kept().len() ==> {
                let k = #[trigger] self.kept()[i];
                is_step(self.model(), k.seqlen, k.fused_prefill, k.graph)
            }
    }

    /// The place of the graph of a count of tokens.
    pub open spec fn holds(&self, seqlen: usize, i: int) -> bool {
        0 <= i < self.kept().len() && self.kept()[i].seqlen == seqlen
    }

    /// No graphs of a model.
    pub fn new(cfg: Qwen3Config) -> (r: Self)
        ensures
            r.kept() == Seq::<KeptGraph>::empty(),
            r.model() == cfg,
            r.wf(),
    {
        StepGraphCache { cfg, graphs: Vec::new() }
    }

    /// The graph for a count of tokens, where it was built.
    pub fn get(&self, seqlen: usize) -> (r: Option<&StepGraph>)
        requires
            self.wf(),
        ensures
            match r {
                Some(g) => exists|i: int|
                    {
                        &&& #[trigger] self.holds(seqlen, i)
                        &&& self.kept()[i].graph == *g
                        &&& is_step(self.model(), seqlen, self.kept()[i].fused_prefill, *g)
                    },
                None => forall|i: int| !self.holds(seqlen, i),
            },
    {
        match self.find(seqlen) {
            Some(i) => {
                assert(self.holds(seqlen, i as int));
                Some(&self.graphs[i].graph)
            },
            None => None,
        }
    }

    /// Where the graph for a count of tokens is, once it is built.
    fn find(&self, seqlen: usize) -> (r: Option<usize>)
        ensures
            match r {
                Some(i) => self.holds(seqlen, i as int),
                None => forall|i: int| !self.holds(seqlen, i),
            },
    {
        let mut i: usize = 0;
        while i < self.graphs.len()
            invariant
                i <= self.graphs@.len(),
                self.kept() == self.graphs@,
                forall|k: int| 0 <= k < i ==> !self.holds(seqlen, k),
            decreases self.graphs@.len() - i,
        {
            if self.graphs[i].seqlen == seqlen {
                return Some(i);
            }
            i = i + 1;
        }
        assert forall|k: int| !self.holds(seqlen, k) by {}
        None
    }

    /// The graph for a count of tokens: the one that was built for it before, or one that
    /// is built now and kept.
    pub fn get_or_build_step_graph(
        &mut self,
        layers: &[LayerWeights],
        seqlen: usize,
        fused_prefill: bool,
    ) -> (r: Result<&StepGraph, GraphError>)
        requires
            old(self).wf(),
            seqlen > 0 ==> fits(dims_of(old(self).model(), seqlen, fused_prefill)),
            layers@.len() >= old(self).model().num_hidden_layers,
        ensures
            final(self).wf(),
            final(self).model() == old(self).model(),
            ({
                let p = dims_of(old(self).model(), seqlen, fused_prefill);
                let bad = bad_output_projection(layers@, p.attn(), p.layers as int);
                match r {
                    Ok(g) => {
                        &&& exists|i: int|
                            {
                                &&& #[trigger] final(self).holds(seqlen, i)
                                &&& final(self).kept()[i].graph == *g
                                &&& is_step(
                                    final(self).model(),
                                    seqlen,
                                    final(self).kept()[i].fused_prefill,
                                    *g,
                                )
                            }
                        &&& if exists|i: int| old(self).holds(seqlen, i) {
                            final(self).kept() == old(self).kept()
                        } else {
                            &&& final(self).kept() == old(self).kept().push(
                                KeptGraph { seqlen, fused_prefill, graph: *g },
                            )
                            &&& bad is None
                        }
                    },
                    Err(e) => {
                        &&& final(self).kept() == old(self).kept()
                        &&& if seqlen == 0 {
                            e == GraphError::NoTokens
                        } else {
                            &&& forall|i: int| !old(self).holds(seqlen, i)
                            &&& bad matches Some(i)
                            &&& e == (GraphError::OutputProjection { layer: bad->0 })
                        }
                    },
                }
            }),
    {
        if seqlen == 0 {
            return Err(GraphError::NoTokens);
        }
        let at: usize = match self.find(seqlen) {
            Some(i) => i,
            None => {
                let graph: StepGraph = build_step_graph(&self.cfg, layers, seqlen, fused_prefill)?;
                self.insert(seqlen, fused_prefill, graph);
                self.graphs.len() - 1
            },
        };
        assert(self.holds(seqlen, at as int));
        Ok(&self.graphs[at].graph)
    }

    /// Keeps a graph that was just built.
    fn insert(&mut self, seqlen: usize, fused_prefill: bool, graph: StepGraph)
        requires
            old(self).wf(),
            forall|i: int| !old(self).holds(seqlen, i),
            is_step(old(self).model(), seqlen, fused_prefill, graph),
        ensures
            final(self).wf(),
            final(self).model() == old(self).model(),
            final(self).kept() == old(self).kept().push(
                KeptGraph { seqlen, fused_prefill, graph },
            ),
    {
        let ghost before = self.kept();
        self.graphs.push(KeptGraph { seqlen, fused_prefill, graph });
        assert forall|i: int, j: int|
            #![trigger self.kept()[i], self.kept()[j]]
            0 <= i < j < self.kept().len() implies self.kept()[i].seqlen
            != self.kept()[j].seqlen by {
            if j == before.len() {
                assert(!old(self).holds(seqlen, i));
            }
        }
    }
}

} // verus!
