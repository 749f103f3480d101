//! Generating text: which token comes next, and when to stop.
use crate::text::{chars, same_chars};
use tokenizers::Tokenizer;
use vstd::prelude::*;
use vstd::slice::slice_subrange;

verus! {

/// What a generation ended with. Times are in nanoseconds.
#[derive(Debug)]
pub struct GenerationOutput {
    pub text: String,
    pub prompt_tokens: usize,
    pub generated_tokens: usize,
    pub prompt_elapsed: u128,
    pub decode_elapsed: u128,
    pub total_elapsed: u128,
    pub profile_report: Option<String>,
}

/// Why a generation cannot begin.
#[derive(Clone, Copy, Debug, PartialEq, Eq, Structural)]
pub enum GenerateError {
    /// The prompt has no tokens.
    EmptyPrompt,
    /// Prompt and new tokens do not fit the context.
    TooLong { max: usize },
}

/// Whether a prompt and new tokens fit the context.
pub open spec fn request_check(prompt: usize, max_new: usize, max_ctx: usize) -> Result<
    (),
    GenerateError,
> {
    if prompt == 0 {
        Err(GenerateError::EmptyPrompt)
    } else if prompt + max_new > max_ctx {
        Err(GenerateError::TooLong { max: max_ctx })
    } else {
        Ok(())
    }
}

/// Whether a prompt and new tokens fit the context.
pub fn check_request(prompt: usize, max_new: usize, max_ctx: usize) -> (r: Result<
    (),
    GenerateError,
>)
    ensures
        r == request_check(prompt, max_new, max_ctx),
{
    if prompt == 0 {
        return Err(GenerateError::EmptyPrompt);
    }
    match prompt.checked_add(max_new) {
        Some(total) => if total <= max_ctx {
            Ok(())
        } else {
            Err(GenerateError::TooLong { max: max_ctx })
        },
        None => Err(GenerateError::TooLong { max: max_ctx }),
    }
}

/// A tokenizer of the `tokenizers` crate.
#[verifier::external_type_specification]
#[verifier::external_body]
pub struct ExTokenizer(tokenizers::Tokenizer);

/// The tokens of a tokenizer, added ones among them.
pub uninterp spec fn vocabulary_of(t: Tokenizer) -> Set<Seq<char>>;

/// `tokenizers::Tokenizer::get_vocab`, with added tokens: whether the vocabulary that it
/// gives holds a token. What the vocabulary of a tokenizer is, is the crate's.
#[verifier::external_body]
fn in_vocabulary(t: &Tokenizer, token: &str) -> (r: bool)
    ensures
        r == vocabulary_of(*t).contains(token@),
{
    t.get_vocab(true).contains_key(token)
}

/// Whether a vocabulary says where turns begin and where they end.
pub open spec fn has_turns(vocabulary: Set<Seq<char>>) -> bool {
    vocabulary.contains("<|im_start|>"@) && vocabulary.contains("<|im_end|>"@)
}

/// A model has turns where it knows both marks, whatever else it knows; without one it has
/// none.
pub proof fn law_turns_need_both_marks(vocabulary: Set<Seq<char>>)
    ensures
        has_turns(vocabulary.insert("<|im_start|>"@).insert("<|im_end|>"@)),
        !has_turns(vocabulary.remove("<|im_start|>"@)),
        !has_turns(vocabulary.remove("<|im_end|>"@)),
{
}

/// Whether the model has turns: its tokenizer knows where one begins and where it ends.
pub fn has_chat_template(t: &Tokenizer) -> (r: bool)
    ensures
        r == has_turns(vocabulary_of(*t)),
{
    in_vocabulary(t, "<|im_start|>") && in_vocabulary(t, "<|im_end|>")
}

/// Where `needle` occurs in `s` from place `i` on.
pub open spec fn occurs_at(s: Seq<char>, needle: Seq<char>, i: int) -> bool {
    0 <= i && i + needle.len() <= s.len() && s.subrange(i, i + needle.len()) == needle
}

/// Whether `needle` occurs in `s`.
pub open spec fn contains_text(s: Seq<char>, needle: Seq<char>) -> bool {
    exists|i: int| occurs_at(s, needle, i)
}

/// Whether `needle` occurs in `s`.
pub fn has_text(s: &[char], needle: &str) -> (r: bool)
    ensures
        r == contains_text(s@, needle@),
{
    let n: Vec<char> = chars(needle);
    if n.len() > s.len() {
        return false;
    }
    let last: usize = s.len() - n.len();
    let mut i: usize = 0;
    while i <= last
        invariant
            n@ == needle@,
            last + n@.len() == s.len(),
            i <= last + 1,
            forall|j: int| 0 <= j < i ==> !occurs_at(s@, needle@, j),
        decreases last + 1 - i,
    {
        if same_chars(slice_subrange(s, i, i + n.len()), n.as_slice()) {
            assert(occurs_at(s@, needle@, i as int));
            return true;
        }
        assert(!occurs_at(s@, needle@, i as int));
        if i == last {
            assert forall|j: int| !occurs_at(s@, needle@, j) by {}
            return false;
        }
        i = i + 1;
    }
    false
}

/// The prompt as a turn of the user that the assistant answers without thinking aloud.
/// A prompt that holds turns of its own stays as it is.
pub open spec fn templated(prompt: Seq<char>, use_template: bool) -> Seq<char> {
    if !use_template || contains_text(prompt, "<|im_start|>"@) {
        prompt
    } else {
        "<|im_start|>user\n"@ + prompt
            + "<|im_end|>\n<|im_start|>assistant\n<think>\n\n</think>\n\n"@
    }
}

/// The prompt as a turn of the user, where the model has such turns.
pub fn maybe_apply_chat_template(prompt: &str, use_template: bool) -> (r: String)
    ensures
        r@ == templated(prompt@, use_template),
{
    let c: Vec<char> = chars(prompt);
    if !use_template || has_text(c.as_slice(), "<|im_start|>") {
        return prompt.to_owned();
    }
    let mut out: String = "<|im_start|>user\n".to_owned();
    out.append(prompt);
    out.append("<|im_end|>\n<|im_start|>assistant\n<think>\n\n</think>\n\n");
    out
}

/// Whether a token is one of these.
pub fn has_token(tokens: &[u32], token: u32) -> (r: bool)
    ensures
        r == tokens@.contains(token),
{
    let mut i: usize = 0;
    while i < tokens.len()
        invariant
            i <= tokens.len(),
            forall|k: int| 0 <= k < i ==> tokens@[k] != token,
        decreases tokens.len() - i,
    {
        if tokens[i] == token {
            assert(tokens@[i as int] == token);
            return true;
        }
        i = i + 1;
    }
    false
}

/// Where a generation stands.
#[derive(Clone, Copy, Debug, PartialEq, Eq, Structural)]
pub enum Phase {
    /// The first token is to be chosen, and the recorded steps go on from it.
    First,
    /// The first token goes to the recorded steps.
    Seed,
    /// The recorded steps compute the next token.
    Replay,
    /// The recorded steps failed; the last token is computed again without them.
    Recover,
    /// The next token is to be chosen from logits.
    Choose,
    /// The logits after the last token are to be computed.
    Advance,
    /// No more tokens.
    Finished,
}

/// What is to be done next.
#[derive(Clone, Copy, Debug, PartialEq, Eq, Structural)]
pub enum GenAction {
    /// Choose the greatest logit on the device.
    ArgmaxDevice,
    /// Choose the greatest logit on the host.
    ArgmaxHost,
    /// Choose by chance.
    Sample,
    /// Hand the recorded steps their first token.
    Seed { token: u32 },
    /// Replay the recorded steps.
    Replay { position: usize },
    /// Hand the recorded steps a token and replay them for their logits.
    ReplayLogits { token: u32, position: usize },
    /// Compute the logits after a token step by step.
    Step { token: u32, position: usize },
    /// Nothing.
    Finish,
}

/// What came of it.
#[derive(Clone, Copy, Debug, PartialEq, Eq, Structural)]
pub enum GenEvent {
    /// A token was chosen or computed.
    Token(u32),
    /// It is done.
    Ready,
    /// The recorded steps failed.
    Failed,
}

/// What a generation is asked for.
#[verifier::ext_equal]
pub struct GenRequest {
    pub max_new: int,
    pub prompt: int,
    pub eos: Seq<u32>,
    pub sampling: bool,
    pub device_argmax: bool,
}

/// Where a generation stands: its phase, the tokens so far, the position of the next
/// step, and whether there are recorded steps.
#[verifier::ext_equal]
pub struct GenState {
    pub phase: Phase,
    pub generated: Seq<u32>,
    pub pos: int,
    pub graph: bool,
}

/// After a token there is more to do, or the request is met.
pub open spec fn more(q: GenRequest, generated: Seq<u32>, phase: Phase) -> Phase {
    if generated.len() < q.max_new {
        phase
    } else {
        Phase::Finished
    }
}

/// A generation after its prompt. Recorded steps choose the greatest logit themselves,
/// unless tokens are chosen by chance or the logits are looked at.
pub open spec fn gen_start(q: GenRequest, graph: bool, debug_logits: bool) -> GenState {
    GenState {
        phase: if !q.sampling && !debug_logits && graph {
            Phase::First
        } else {
            more(q, Seq::empty(), Phase::Choose)
        },
        generated: Seq::empty(),
        pos: q.prompt,
        graph,
    }
}

/// What is to be done next.
pub open spec fn gen_action(q: GenRequest, st: GenState) -> GenAction {
    match st.phase {
        Phase::First => GenAction::ArgmaxDevice,
        Phase::Seed => GenAction::Seed { token: st.generated.last() },
        Phase::Replay => GenAction::Replay { position: st.pos as usize },
        Phase::Recover => GenAction::Step {
            token: st.generated.last(),
            position: st.pos as usize,
        },
        Phase::Choose => if q.sampling {
            GenAction::Sample
        } else if q.device_argmax {
            GenAction::ArgmaxDevice
        } else {
            GenAction::ArgmaxHost
        },
        Phase::Advance => if st.graph {
            GenAction::ReplayLogits { token: st.generated.last(), position: st.pos as usize }
        } else {
            GenAction::Step { token: st.generated.last(), position: st.pos as usize }
        },
        Phase::Finished => GenAction::Finish,
    }
}

/// Whether an event answers what was to be done.
pub open spec fn expected(st: GenState, ev: GenEvent) -> bool {
    match st.phase {
        Phase::First => ev is Token,
        Phase::Seed => ev is Ready,
        Phase::Replay => ev is Token || ev is Failed,
        Phase::Recover => ev is Ready,
        Phase::Choose => ev is Token,
        Phase::Advance => ev is Ready || (ev is Failed && st.graph),
        Phase::Finished => false,
    }
}

/// How a generation goes on. A token that ends the text is not part of it. Events that
/// answer nothing change nothing.
pub open spec fn gen_next(q: GenRequest, st: GenState, ev: GenEvent) -> GenState {
    match (st.phase, ev) {
        (Phase::First, GenEvent::Token(t)) => if q.eos.contains(t) || q.max_new == 0 {
            GenState { phase: Phase::Finished, ..st }
        } else {
            GenState { phase: Phase::Seed, generated: st.generated.push(t), ..st }
        },
        (Phase::Seed, GenEvent::Ready) => GenState {
            phase: more(q, st.generated, Phase::Replay),
            ..st
        },
        (Phase::Replay, GenEvent::Token(t)) => if q.eos.contains(t) {
            GenState { phase: Phase::Finished, pos: st.pos + 1, ..st }
        } else {
            GenState {
                phase: more(q, st.generated.push(t), Phase::Replay),
                generated: st.generated.push(t),
                pos: st.pos + 1,
                ..st
            }
        },
        (Phase::Replay, GenEvent::Failed) => GenState {
            phase: Phase::Recover,
            graph: false,
            ..st
        },
        (Phase::Recover, GenEvent::Ready) => GenState {
            phase: more(q, st.generated, Phase::Choose),
            pos: st.pos + 1,
            ..st
        },
        (Phase::Choose, GenEvent::Token(t)) => if q.eos.contains(t) {
            GenState { phase: Phase::Finished, ..st }
        } else {
            GenState { phase: Phase::Advance, generated: st.generated.push(t), ..st }
        },
        (Phase::Advance, GenEvent::Ready) => GenState {
            phase: more(q, st.generated, Phase::Choose),
            pos: st.pos + 1,
            ..st
        },
        (Phase::Advance, GenEvent::Failed) => GenState { graph: false, ..st },
        _ => st,
    }
}

/// What holds in every phase: no more tokens than asked, none that ends the text, and the
/// position goes with the tokens. Where no token ends the text, all of them come.
pub open spec fn gen_sound(q: GenRequest, st: GenState) -> bool {
    let n = st.generated.len();
    &&& n <= q.max_new
    &&& forall|i: int| 0 <= i < n ==> !q.eos.contains(#[trigger] st.generated[i])
    &&& match st.phase {
        Phase::First => n == 0 && st.pos == q.prompt && st.graph,
        Phase::Seed => n == 1 && st.pos == q.prompt && st.graph,
        Phase::Replay => 1 <= n < q.max_new && st.pos == q.prompt + n - 1 && st.graph,
        Phase::Recover => 1 <= n < q.max_new && st.pos == q.prompt + n - 1,
        Phase::Choose => n < q.max_new && st.pos == q.prompt + n,
        Phase::Advance => 1 <= n && st.pos == q.prompt + n - 1,
        Phase::Finished => st.pos <= q.prompt + q.max_new && (q.eos.len() == 0 ==> n
            == q.max_new),
    }
}

/// A generation begins sound and stays sound, whatever comes: it never has more tokens
/// than asked, and none that ends the text.
pub proof fn law_generation_stays_sound(
    q: GenRequest,
    graph: bool,
    debug_logits: bool,
    st: GenState,
    ev: GenEvent,
)
    requires
        q.max_new >= 0,
        gen_sound(q, st),
    ensures
        gen_sound(q, gen_start(q, graph, debug_logits)),
        gen_sound(q, gen_next(q, st, ev)),
{
    let next = gen_next(q, st, ev);
    assert forall|i: int| 0 <= i < next.generated.len() implies !q.eos.contains(
        #[trigger] next.generated[i],
    ) by {
        if i < st.generated.len() {
            assert(next.generated[i] == st.generated[i]);
        }
    }
}

/// The position of a step, where one is to be done.
pub open spec fn position_of(a: GenAction) -> Option<usize> {
    match a {
        GenAction::Replay { position } => Some(position),
        GenAction::ReplayLogits { position, .. } => Some(position),
        GenAction::Step { position, .. } => Some(position),
        _ => None,
    }
}

/// Every step of a generation that fits the context has its position in the cache.
pub proof fn law_positions_fit(q: GenRequest, st: GenState, max_ctx: usize)
    requires
        gen_sound(q, st),
        0 <= q.prompt,
        q.prompt + q.max_new <= max_ctx,
    ensures
        position_of(gen_action(q, st)) matches Some(p) ==> q.prompt <= p < max_ctx,
{
}

/// What is left to do at most.
pub open spec fn gen_left(q: GenRequest, st: GenState) -> int {
    let rank: int = match st.phase {
        Phase::First => 2,
        Phase::Seed => 2,
        Phase::Replay => 1,
        Phase::Recover => 1,
        Phase::Choose => 0,
        Phase::Advance => 1,
        Phase::Finished => 0,
    };
    if st.phase is Finished {
        0
    } else {
        1 + 4 * (q.max_new - st.generated.len()) + rank + if st.graph {
            1int
        } else {
            0
        }
    }
}

/// A generation comes to its end: every answer leaves less to do.
pub proof fn law_generation_ends(q: GenRequest, st: GenState, ev: GenEvent)
    requires
        gen_sound(q, st),
        q.max_new >= 0,
        expected(st, ev),
    ensures
        0 <= gen_left(q, gen_next(q, st, ev)) < gen_left(q, st),
{
}

/// A generation ends before it has its tokens only with a token that ends the text.
pub proof fn law_early_end_is_asked_for(q: GenRequest, st: GenState, ev: GenEvent)
    requires
        gen_sound(q, st),
        !(st.phase is Finished),
        gen_next(q, st, ev).phase is Finished,
        gen_next(q, st, ev).generated.len() < q.max_new,
    ensures
        ev matches GenEvent::Token(t) && q.eos.contains(t),
{
}

/// Where a generation stands after these events.
pub open spec fn gen_run(q: GenRequest, st: GenState, events: Seq<GenEvent>) -> GenState
    decreases events.len(),
{
    if events.len() == 0 {
        st
    } else {
        gen_next(q, gen_run(q, st, events.drop_last()), events.last())
    }
}

/// Where no token ends the text, a generation that came to its end has all the tokens that
/// were asked for.
pub proof fn law_all_tokens_without_eos(
    q: GenRequest,
    graph: bool,
    debug_logits: bool,
    events: Seq<GenEvent>,
)
    requires
        q.max_new >= 0,
        q.eos.len() == 0,
    ensures
        gen_sound(q, gen_run(q, gen_start(q, graph, debug_logits), events)),
        gen_run(q, gen_start(q, graph, debug_logits), events).phase is Finished ==> gen_run(
            q,
            gen_start(q, graph, debug_logits),
            events,
        ).generated.len() == q.max_new,
    decreases events.len(),
{
    let start = gen_start(q, graph, debug_logits);
    if events.len() == 0 {
        law_generation_stays_sound(q, graph, debug_logits, start, GenEvent::Ready);
    } else {
        let before = gen_run(q, start, events.drop_last());
        law_all_tokens_without_eos(q, graph, debug_logits, events.drop_last());
        law_generation_stays_sound(q, graph, debug_logits, before, events.last());
    }
}

/// The tokens that were chosen or computed in the course of these events, in order.
pub open spec fn gen_said(q: GenRequest, st: GenState, events: Seq<GenEvent>) -> Seq<u32>
    decreases events.len(),
{
    if events.len() == 0 {
        Seq::empty()
    } else {
        let before = gen_said(q, st, events.drop_last());
        match (gen_action(q, gen_run(q, st, events.drop_last())), events.last()) {
            (GenAction::ArgmaxDevice, GenEvent::Token(t)) => before.push(t),
            (GenAction::ArgmaxHost, GenEvent::Token(t)) => before.push(t),
            (GenAction::Sample, GenEvent::Token(t)) => before.push(t),
            (GenAction::Replay { .. }, GenEvent::Token(t)) => before.push(t),
            _ => before,
        }
    }
}

/// The text without a token that ends it.
pub open spec fn without_end(said: Seq<u32>, eos: Seq<u32>) -> Seq<u32> {
    if said.len() > 0 && eos.contains(said.last()) {
        said.drop_last()
    } else {
        said
    }
}

/// A generation is its tokens in the order in which they came, up to one that ends the text,
/// with which it stops. Each token goes on to the model once it came, and to the position that
/// the prompt and the tokens before it leave.
pub proof fn law_generation_feeds_its_text(
    q: GenRequest,
    graph: bool,
    debug_logits: bool,
    events: Seq<GenEvent>,
)
    requires
        q.max_new >= 1,
        0 <= q.prompt,
        q.prompt + q.max_new <= usize::MAX,
    ensures
        ({
            let start = gen_start(q, graph, debug_logits);
            let st = gen_run(q, start, events);
            let said = gen_said(q, start, events);
            &&& st.generated == without_end(said, q.eos)
            &&& said.len() > 0 && q.eos.contains(said.last()) ==> st.phase is Finished
            &&& match gen_action(q, st) {
                GenAction::Seed { token } => said.len() == 1 && token == said[0],
                GenAction::Replay { position } => position == q.prompt + said.len() - 1,
                GenAction::ReplayLogits { token, position } => said.len() > 0 && token
                    == said.last() && position == q.prompt + said.len() - 1,
                GenAction::Step { token, position } => said.len() > 0 && token == said.last()
                    && position == q.prompt + said.len() - 1,
                GenAction::Finish => said.len() == q.max_new || (said.len() > 0
                    && q.eos.contains(said.last())),
                _ => said.len() < q.max_new,
            }
        }),
    decreases events.len(),
{
    let start = gen_start(q, graph, debug_logits);
    let st = gen_run(q, start, events);
    if events.len() > 0 {
        let ev = events.last();
        let old = events.drop_last();
        law_generation_feeds_its_text(q, graph, debug_logits, old);
        lemma_run_sound(q, graph, debug_logits, old);
        lemma_run_sound(q, graph, debug_logits, events);
        let before = gen_said(q, start, old);
        let said = gen_said(q, start, events);
        if said.len() > before.len() {
            assert(said.drop_last() =~= before);
        }
    } else {
        lemma_run_sound(q, graph, debug_logits, events);
    }
}

proof fn lemma_run_sound(q: GenRequest, graph: bool, debug_logits: bool, events: Seq<GenEvent>)
    requires
        q.max_new >= 0,
    ensures
        gen_sound(q, gen_run(q, gen_start(q, graph, debug_logits), events)),
    decreases events.len(),
{
    let start = gen_start(q, graph, debug_logits);
    if events.len() == 0 {
        law_generation_stays_sound(q, graph, debug_logits, start, GenEvent::Ready);
    } else {
        lemma_run_sound(q, graph, debug_logits, events.drop_last());
        law_generation_stays_sound(
            q,
            graph,
            debug_logits,
            gen_run(q, start, events.drop_last()),
            events.last(),
        );
    }
}

/// Tokens are chosen as was asked: by chance where that was asked for and only there, else the
/// greatest logit, which the host looks for only where the device is not to. Recorded steps run
/// only where there were some and none failed, and choose by themselves only where neither
/// chance nor a look at the logits was asked for.
pub proof fn law_tokens_are_chosen_as_asked(
    q: GenRequest,
    graph: bool,
    debug_logits: bool,
    events: Seq<GenEvent>,
)
    requires
        q.max_new >= 1,
    ensures
        ({
            let st = gen_run(q, gen_start(q, graph, debug_logits), events);
            &&& st.graph ==> graph
            &&& match gen_action(q, st) {
                GenAction::Sample => q.sampling,
                GenAction::ArgmaxHost => !q.sampling && !q.device_argmax,
                GenAction::ArgmaxDevice => !q.sampling && (q.device_argmax || (graph
                    && !debug_logits)),
                GenAction::Seed { .. } => !q.sampling && !debug_logits && st.graph,
                GenAction::Replay { .. } => !q.sampling && !debug_logits && st.graph,
                GenAction::ReplayLogits { .. } => st.graph,
                GenAction::Step { .. } => !st.graph,
                GenAction::Finish => true,
            }
            &&& events.len() > 0 && events.last() is Failed && expected(
                gen_run(q, gen_start(q, graph, debug_logits), events.drop_last()),
                events.last(),
            ) ==> !st.graph
        }),
{
    lemma_phases(q, graph, debug_logits, events);
    lemma_run_sound(q, graph, debug_logits, events);
}

/// Recorded steps choose tokens only where that was asked for, and what comes after a failure
/// is done without them.
proof fn lemma_phases(q: GenRequest, graph: bool, debug_logits: bool, events: Seq<GenEvent>)
    requires
        q.max_new >= 1,
    ensures
        ({
            let st = gen_run(q, gen_start(q, graph, debug_logits), events);
            &&& st.graph ==> graph
            &&& st.phase is First || st.phase is Seed || st.phase is Replay || st.phase is Recover
                ==> !q.sampling && !debug_logits && graph
            &&& st.phase is Recover ==> !st.graph
        }),
    decreases events.len(),
{
    if events.len() > 0 {
        lemma_phases(q, graph, debug_logits, events.drop_last());
    }
}

/// A request is accepted exactly where it has a prompt and prompt and new tokens together fit
/// the context: then every one of them has a position in it, and one more would not.
pub proof fn law_requests_fit(prompt: usize, max_new: usize, max_ctx: usize)
    ensures
        request_check(0, max_new, max_ctx) == Err::<(), GenerateError>(GenerateError::EmptyPrompt),
        request_check(prompt, max_new, max_ctx) is Ok ==> 1 <= prompt && prompt + max_new
            <= max_ctx,
        1 <= prompt && prompt + max_new == max_ctx ==> request_check(prompt, max_new, max_ctx)
            is Ok,
        1 <= prompt && prompt + max_new > max_ctx ==> request_check(prompt, max_new, max_ctx)
            == Err::<(), GenerateError>(GenerateError::TooLong { max: max_ctx }),
        request_check(prompt, max_new, max_ctx) is Ok && max_new > 0 ==> request_check(
            prompt,
            (max_new - 1) as usize,
            max_ctx,
        ) is Ok,
{
}

/// A text holds what stands anywhere in it, and what it holds stands somewhere in it.
pub proof fn law_texts_hold_their_parts(a: Seq<char>, needle: Seq<char>, b: Seq<char>, s: Seq<char>)
    ensures
        contains_text(a + needle + b, needle),
        contains_text(s, needle) ==> exists|i: int|
            0 <= i && i + needle.len() <= s.len() && s == s.subrange(0, i) + needle
                + #[trigger] s.subrange(i + needle.len(), s.len() as int),
{
    assert((a + needle + b).subrange(a.len() as int, (a.len() + needle.len()) as int) =~= needle);
    assert(occurs_at(a + needle + b, needle, a.len() as int));
    if contains_text(s, needle) {
        let i = choose|i: int| occurs_at(s, needle, i);
        let rest = s.subrange(i + needle.len(), s.len() as int);
        assert(s =~= s.subrange(0, i) + s.subrange(i, i + needle.len()) + rest);
    }
}

/// A prompt becomes a turn of the user once: with the turn of the assistant begun and its
/// thinking done before it. A prompt of turns stays as it is, and so does every prompt where
/// the model has none.
pub proof fn law_prompt_becomes_a_turn_once(prompt: Seq<char>, again: bool)
    ensures
        templated(prompt, false) == prompt,
        templated(templated(prompt, true), again) == templated(prompt, true),
        !contains_text(prompt, "<|im_start|>"@) ==> templated(prompt, true)
            == "<|im_start|>user\n"@ + prompt
            + "<|im_end|>\n<|im_start|>assistant\n<think>\n\n</think>\n\n"@,
        contains_text(prompt, "<|im_start|>"@) ==> templated(prompt, true) == prompt,
        contains_text(templated(prompt, true), prompt),
{
    let turn = templated(prompt, true);
    let (open, close) = (
        "<|im_start|>user\n"@,
        "<|im_end|>\n<|im_start|>assistant\n<think>\n\n</think>\n\n"@,
    );
    let none = Seq::<char>::empty();
    if contains_text(prompt, "<|im_start|>"@) {
        law_texts_hold_their_parts(none, prompt, none, prompt);
        assert(none + prompt + none =~= prompt);
    } else {
        law_texts_hold_their_parts(open, prompt, close, prompt);
        reveal_strlit("<|im_start|>user\n");
        reveal_strlit("<|im_start|>");
        let mark = "<|im_start|>"@;
        assert(turn.subrange(0, mark.len() as int) =~= mark);
        assert(occurs_at(turn, mark, 0));
    }
}

/// A generation.
#[derive(Debug)]
pub struct Generation {
    pub max_new: usize,
    pub prompt: usize,
    pub eos: Vec<u32>,
    pub sampling: bool,
    pub device_argmax: bool,
    pub phase: Phase,
    pub generated: Vec<u32>,
    pub pos: usize,
    pub graph: bool,
}

impl View for Generation {
    type V = GenState;

    open spec fn view(&self) -> GenState {
        GenState {
            phase: self.phase,
            generated: self.generated@,
            pos: self.pos as int,
            graph: self.graph,
        }
    }
}

impl Generation {
    /// What the generation is asked for.
    pub open spec fn request(&self) -> GenRequest {
        GenRequest {
            max_new: self.max_new as int,
            prompt: self.prompt as int,
            eos: self.eos@,
            sampling: self.sampling,
            device_argmax: self.device_argmax,
        }
    }

    /// The generation is in one of its states.
    pub open spec fn wf(&self) -> bool {
        &&& self.prompt + self.max_new <= usize::MAX
        &&& gen_sound(self.request(), self@)
    }

    /// A generation of at most `max_new` tokens after a prompt.
    pub fn start(
        max_new: usize,
        prompt: usize,
        eos: Vec<u32>,
        sampling: bool,
        device_argmax: bool,
        graph: bool,
        debug_logits: bool,
    ) -> (r: Self)
        requires
            prompt + max_new <= usize::MAX,
        ensures
            r.wf(),
            r.request() == (GenRequest {
                max_new: max_new as int,
                prompt: prompt as int,
                eos: eos@,
                sampling,
                device_argmax,
            }),
            r@ == gen_start(r.request(), graph, debug_logits),
    {
        let phase: Phase = if !sampling && !debug_logits && graph {
            Phase::First
        } else if max_new > 0 {
            Phase::Choose
        } else {
            Phase::Finished
        };
        let g = Generation {
            max_new,
            prompt,
            eos,
            sampling,
            device_argmax,
            phase,
            generated: Vec::new(),
            pos: prompt,
            graph,
        };
        assert(g@ =~= gen_start(g.request(), graph, debug_logits));
        g
    }

    /// What is to be done next.
    pub fn action(&self) -> (r: GenAction)
        requires
            self.wf(),
        ensures
            r == gen_action(self.request(), self@),
    {
        match self.phase {
            Phase::First => GenAction::ArgmaxDevice,
            Phase::Seed => GenAction::Seed { token: self.generated[self.generated.len() - 1] },
            Phase::Replay => GenAction::Replay { position: self.pos },
            Phase::Recover => GenAction::Step {
                token: self.generated[self.generated.len() - 1],
                position: self.pos,
            },
            Phase::Choose => if self.sampling {
                GenAction::Sample
            } else if self.device_argmax {
                GenAction::ArgmaxDevice
            } else {
                GenAction::ArgmaxHost
            },
            Phase::Advance => {
                let token: u32 = self.generated[self.generated.len() - 1];
                if self.graph {
                    GenAction::ReplayLogits { token, position: self.pos }
                } else {
                    GenAction::Step { token, position: self.pos }
                }
            },
            Phase::Finished => GenAction::Finish,
        }
    }

    fn go_on(&mut self, phase: Phase)
        ensures
            final(self)@ == (GenState {
                phase: more(old(self).request(), old(self)@.generated, phase),
                ..old(self)@
            }),
            final(self).request() == old(self).request(),
            final(self).prompt == old(self).prompt && final(self).max_new == old(self).max_new,
    {
        self.phase = if self.generated.len() < self.max_new {
            phase
        } else {
            Phase::Finished
        };
    }

    /// Goes on after what was to be done.
    pub fn step(&mut self, ev: GenEvent)
        requires
            old(self).wf(),
        ensures
            final(self).wf(),
            final(self).request() == old(self).request(),
            final(self)@ == gen_next(old(self).request(), old(self)@, ev),
    {
        let ghost q = self.request();
        let ghost before = self@;
        proof {
            law_generation_stays_sound(q, self.graph, false, self@, ev);
        }
        match (self.phase, ev) {
            (Phase::First, GenEvent::Token(t)) => {
                if has_token(self.eos.as_slice(), t) || self.max_new == 0 {
                    self.phase = Phase::Finished;
                } else {
                    self.generated.push(t);
                    self.phase = Phase::Seed;
                }
            },
            (Phase::Seed, GenEvent::Ready) => {
                self.go_on(Phase::Replay);
            },
            (Phase::Replay, GenEvent::Token(t)) => {
                self.pos = self.pos + 1;
                if has_token(self.eos.as_slice(), t) {
                    self.phase = Phase::Finished;
                } else {
                    self.generated.push(t);
                    self.go_on(Phase::Replay);
                }
            },
            (Phase::Replay, GenEvent::Failed) => {
                self.graph = false;
                self.phase = Phase::Recover;
            },
            (Phase::Recover, GenEvent::Ready) => {
                self.pos = self.pos + 1;
                self.go_on(Phase::Choose);
            },
            (Phase::Choose, GenEvent::Token(t)) => {
                if has_token(self.eos.as_slice(), t) {
                    self.phase = Phase::Finished;
                } else {
                    self.generated.push(t);
                    self.phase = Phase::Advance;
                }
            },
            (Phase::Advance, GenEvent::Ready) => {
                self.pos = self.pos + 1;
                self.go_on(Phase::Choose);
            },
            (Phase::Advance, GenEvent::Failed) => {
                self.graph = false;
            },
            _ => {},
        }
        assert(self@ =~= gen_next(q, before, ev));
        assert(self.request() =~= q);
    }

    /// What the generation ended with, for the text that its tokens stand for.
    pub fn output(
        &self,
        text: String,
        prompt_elapsed: u128,
        decode_elapsed: u128,
        total_elapsed: u128,
        profile_report: Option<String>,
    ) -> (r: GenerationOutput)
        requires
            self.wf(),
        ensures
            r == (GenerationOutput {
                text,
                prompt_tokens: self.prompt,
                generated_tokens: r.generated_tokens,
                prompt_elapsed,
                decode_elapsed,
                total_elapsed,
                profile_report,
            }),
            r.prompt_tokens == self.request().prompt,
            r.generated_tokens == self@.generated.len(),
            self.phase is Finished && self.eos@.len() == 0 ==> r.generated_tokens == self.max_new,
    {
        GenerationOutput {
            text,
            prompt_tokens: self.prompt,
            generated_tokens: self.generated.len(),
            prompt_elapsed,
            decode_elapsed,
            total_elapsed,
            profile_report,
        }
    }
}

/// Where a generation through an engine session stands.
#[derive(Clone, Copy, Debug, PartialEq, Eq, Structural)]
pub enum SessionPhase {
    /// The next token is to be chosen from logits.
    Choose,
    /// The last token goes to the engine.
    Decode,
    /// No more tokens.
    Finished,
}

/// What is to be done next in a session.
#[derive(Clone, Copy, Debug, PartialEq, Eq, Structural)]
pub enum SessionAction {
    /// Choose by chance.
    Sample,
    /// Choose the greatest logit.
    Argmax,
    /// Let the engine give the logits after a token.
    Decode { token: u32 },
    /// Let the engine choose the token after a token.
    DecodeGreedy { token: u32 },
    /// Nothing.
    Finish,
}

/// What is to be done next in a session.
pub open spec fn session_action(
    q: GenRequest,
    phase: SessionPhase,
    generated: Seq<u32>,
) -> SessionAction {
    match phase {
        SessionPhase::Choose => if q.sampling {
            SessionAction::Sample
        } else {
            SessionAction::Argmax
        },
        SessionPhase::Decode => if q.device_argmax && !q.sampling {
            SessionAction::DecodeGreedy { token: generated.last() }
        } else {
            SessionAction::Decode { token: generated.last() }
        },
        SessionPhase::Finished => SessionAction::Finish,
    }
}

/// The tokens and the phase after a token came: one that ends the text is not part of it.
pub open spec fn session_token(q: GenRequest, generated: Seq<u32>, t: u32) -> (
    SessionPhase,
    Seq<u32>,
) {
    if q.eos.contains(t) {
        (SessionPhase::Finished, generated)
    } else if generated.len() + 1 < q.max_new {
        (SessionPhase::Decode, generated.push(t))
    } else {
        (SessionPhase::Finished, generated.push(t))
    }
}

/// How a session goes on. A token answers a choice, or a greedy decode; logits answer a
/// decode. Events that answer nothing change nothing.
pub open spec fn session_next(
    q: GenRequest,
    phase: SessionPhase,
    generated: Seq<u32>,
    ev: GenEvent,
) -> (SessionPhase, Seq<u32>) {
    match (phase, ev) {
        (SessionPhase::Choose, GenEvent::Token(t)) => session_token(q, generated, t),
        (SessionPhase::Decode, GenEvent::Token(t)) => if q.device_argmax && !q.sampling {
            session_token(q, generated, t)
        } else {
            (phase, generated)
        },
        (SessionPhase::Decode, GenEvent::Ready) => if q.device_argmax && !q.sampling {
            (phase, generated)
        } else {
            (SessionPhase::Choose, generated)
        },
        _ => (phase, generated),
    }
}

/// What holds in every phase of a session: no more tokens than asked, and none that ends the
/// text. Where no token ends the text, all of them come.
pub open spec fn session_sound(q: GenRequest, phase: SessionPhase, generated: Seq<u32>) -> bool {
    &&& generated.len() <= q.max_new
    &&& forall|i: int| 0 <= i < generated.len() ==> !q.eos.contains(#[trigger] generated[i])
    &&& phase is Choose ==> generated.len() < q.max_new
    &&& phase is Decode ==> 1 <= generated.len() < q.max_new
    &&& phase is Finished && q.eos.len() == 0 ==> generated.len() == q.max_new
}

/// A session begins sound and stays sound, whatever comes: it never has more tokens than
/// asked, and none that ends the text.
pub proof fn law_session_stays_sound(
    q: GenRequest,
    phase: SessionPhase,
    generated: Seq<u32>,
    ev: GenEvent,
)
    requires
        session_sound(q, phase, generated),
        q.max_new >= 0,
    ensures
        session_sound(
            q,
            session_next(q, phase, generated, ev).0,
            session_next(q, phase, generated, ev).1,
        ),
{
    let next = session_next(q, phase, generated, ev).1;
    assert forall|i: int| 0 <= i < next.len() implies !q.eos.contains(#[trigger] next[i]) by {
        if i < generated.len() {
            assert(next[i] == generated[i]);
        }
    }
}

/// Where a session stands after these events.
pub open spec fn session_run(
    q: GenRequest,
    phase: SessionPhase,
    generated: Seq<u32>,
    events: Seq<GenEvent>,
) -> (SessionPhase, Seq<u32>)
    decreases events.len(),
{
    if events.len() == 0 {
        (phase, generated)
    } else {
        let before = session_run(q, phase, generated, events.drop_last());
        session_next(q, before.0, before.1, events.last())
    }
}

/// The phase that a session begins in.
pub open spec fn session_first(q: GenRequest) -> SessionPhase {
    if q.max_new > 0 {
        SessionPhase::Choose
    } else {
        SessionPhase::Finished
    }
}

/// Where no token ends the text, a session that came to its end has all the tokens that
/// were asked for.
pub proof fn law_session_all_tokens_without_eos(q: GenRequest, events: Seq<GenEvent>)
    requires
        q.max_new >= 0,
        q.eos.len() == 0,
    ensures
        session_sound(
            q,
            session_run(q, session_first(q), Seq::empty(), events).0,
            session_run(q, session_first(q), Seq::empty(), events).1,
        ),
        session_run(q, session_first(q), Seq::empty(), events).0 is Finished ==> session_run(
            q,
            session_first(q),
            Seq::empty(),
            events,
        ).1.len() == q.max_new,
    decreases events.len(),
{
    if events.len() > 0 {
        let before = session_run(q, session_first(q), Seq::empty(), events.drop_last());
        law_session_all_tokens_without_eos(q, events.drop_last());
        law_session_stays_sound(q, before.0, before.1, events.last());
    }
}

/// The tokens that were chosen or computed in a session in the course of these events.
pub open spec fn session_said(q: GenRequest, events: Seq<GenEvent>) -> Seq<u32>
    decreases events.len(),
{
    if events.len() == 0 {
        Seq::empty()
    } else {
        let said = session_said(q, events.drop_last());
        let before = session_run(q, session_first(q), Seq::empty(), events.drop_last());
        match (session_action(q, before.0, before.1), events.last()) {
            (SessionAction::Sample, GenEvent::Token(t)) => said.push(t),
            (SessionAction::Argmax, GenEvent::Token(t)) => said.push(t),
            (SessionAction::DecodeGreedy { .. }, GenEvent::Token(t)) => said.push(t),
            _ => said,
        }
    }
}

/// The tokens that the engine was handed in a session in the course of these events.
pub open spec fn session_fed(q: GenRequest, events: Seq<GenEvent>) -> Seq<u32>
    decreases events.len(),
{
    if events.len() == 0 {
        Seq::empty()
    } else {
        let fed = session_fed(q, events.drop_last());
        let before = session_run(q, session_first(q), Seq::empty(), events.drop_last());
        match (session_action(q, before.0, before.1), events.last()) {
            (SessionAction::Decode { token }, GenEvent::Ready) => fed.push(token),
            (SessionAction::DecodeGreedy { token }, GenEvent::Token(_)) => fed.push(token),
            _ => fed,
        }
    }
}

proof fn lemma_session_run_sound(q: GenRequest, events: Seq<GenEvent>)
    requires
        q.max_new >= 0,
    ensures
        session_sound(
            q,
            session_run(q, session_first(q), Seq::empty(), events).0,
            session_run(q, session_first(q), Seq::empty(), events).1,
        ),
    decreases events.len(),
{
    if events.len() > 0 {
        let before = session_run(q, session_first(q), Seq::empty(), events.drop_last());
        lemma_session_run_sound(q, events.drop_last());
        law_session_stays_sound(q, before.0, before.1, events.last());
    }
}

/// A session is its tokens in the order in which they came, up to one that ends the text,
/// with which it stops. The engine is handed exactly these tokens, each once and in order, and
/// next the one that came last.
pub proof fn law_session_feeds_its_text(q: GenRequest, events: Seq<GenEvent>)
    requires
        q.max_new >= 0,
    ensures
        ({
            let st = session_run(q, session_first(q), Seq::empty(), events);
            let said = session_said(q, events);
            let fed = session_fed(q, events);
            &&& st.1 == without_end(said, q.eos)
            &&& said.len() > 0 && q.eos.contains(said.last()) ==> st.0 is Finished
            &&& fed.len() <= said.len()
            &&& forall|i: int| 0 <= i < fed.len() ==> fed[i] == said[i]
            &&& match session_action(q, st.0, st.1) {
                SessionAction::Decode { token } => fed.len() + 1 == said.len() && token
                    == said.last() && (q.sampling || !q.device_argmax),
                SessionAction::DecodeGreedy { token } => fed.len() + 1 == said.len() && token
                    == said.last() && !q.sampling && q.device_argmax,
                SessionAction::Sample => fed.len() == said.len() < q.max_new && q.sampling,
                SessionAction::Argmax => fed.len() == said.len() < q.max_new && !q.sampling,
                SessionAction::Finish => said.len() == q.max_new || (said.len() > 0
                    && q.eos.contains(said.last())),
            }
        }),
    decreases events.len(),
{
    if events.len() > 0 {
        let old = events.drop_last();
        law_session_feeds_its_text(q, old);
        lemma_session_run_sound(q, old);
        let before = session_said(q, old);
        let said = session_said(q, events);
        if said.len() > before.len() {
            assert(said.drop_last() =~= before);
        }
    }
}

/// A generation through an engine session, after its prompt.
#[derive(Debug)]
pub struct SessionGeneration {
    pub max_new: usize,
    pub eos: Vec<u32>,
    pub sampling: bool,
    pub device_argmax: bool,
    pub phase: SessionPhase,
    pub generated: Vec<u32>,
}

impl SessionGeneration {
    /// What the generation is asked for.
    pub open spec fn request(&self) -> GenRequest {
        GenRequest {
            max_new: self.max_new as int,
            prompt: 0,
            eos: self.eos@,
            sampling: self.sampling,
            device_argmax: self.device_argmax,
        }
    }

    /// The generation is in one of its states.
    pub open spec fn wf(&self) -> bool {
        session_sound(self.request(), self.phase, self.generated@)
    }

    /// A generation of at most `max_new` tokens.
    pub fn start(max_new: usize, eos: Vec<u32>, sampling: bool, device_argmax: bool) -> (r: Self)
        ensures
            r.wf(),
            r.request() == (GenRequest {
                max_new: max_new as int,
                prompt: 0,
                eos: eos@,
                sampling,
                device_argmax,
            }),
            r.generated@ == Seq::<u32>::empty(),
            r.phase == session_first(r.request()),
    {
        let phase: SessionPhase = if max_new > 0 {
            SessionPhase::Choose
        } else {
            SessionPhase::Finished
        };
        SessionGeneration {
            max_new,
            eos,
            sampling,
            device_argmax,
            phase,
            generated: Vec::new(),
        }
    }

    /// What is to be done next.
    pub fn action(&self) -> (r: SessionAction)
        requires
            self.wf(),
        ensures
            r == session_action(self.request(), self.phase, self.generated@),
    {
        match self.phase {
            SessionPhase::Choose => if self.sampling {
                SessionAction::Sample
            } else {
                SessionAction::Argmax
            },
            SessionPhase::Decode => {
                let token: u32 = self.generated[self.generated.len() - 1];
                if self.device_argmax && !self.sampling {
                    SessionAction::DecodeGreedy { token }
                } else {
                    SessionAction::Decode { token }
                }
            },
            SessionPhase::Finished => SessionAction::Finish,
        }
    }

    fn take(&mut self, t: u32)
        requires
            old(self).generated@.len() < usize::MAX,
        ensures
            final(self).request() == old(self).request(),
            (final(self).phase, final(self).generated@) == session_token(
                old(self).request(),
                old(self).generated@,
                t,
            ),
    {
        if has_token(self.eos.as_slice(), t) {
            self.phase = SessionPhase::Finished;
        } else {
            self.generated.push(t);
            self.phase = if self.generated.len() < self.max_new {
                SessionPhase::Decode
            } else {
                SessionPhase::Finished
            };
        }
    }

    /// Goes on after what was to be done.
    pub fn step(&mut self, ev: GenEvent)
        requires
            old(self).wf(),
        ensures
            final(self).wf(),
            final(self).request() == old(self).request(),
            (final(self).phase, final(self).generated@) == session_next(
                old(self).request(),
                old(self).phase,
                old(self).generated@,
                ev,
            ),
    {
        proof {
            law_session_stays_sound(self.request(), self.phase, self.generated@, ev);
        }
        let greedy: bool = self.device_argmax && !self.sampling;
        match (self.phase, ev) {
            (SessionPhase::Choose, GenEvent::Token(t)) => {
                self.take(t);
            },
            (SessionPhase::Decode, GenEvent::Token(t)) => {
                if greedy {
                    self.take(t);
                }
            },
            (SessionPhase::Decode, GenEvent::Ready) => {
                if !greedy {
                    self.phase = SessionPhase::Choose;
                }
            },
            _ => {},
        }
    }

    /// What the generation ended with, for the text that its tokens stand for.
    pub fn output(
        &self,
        text: String,
        prompt_tokens: usize,
        prompt_elapsed: u128,
        decode_elapsed: u128,
        total_elapsed: u128,
        profile_report: Option<String>,
    ) -> (r: GenerationOutput)
        requires
            self.wf(),
        ensures
            r == (GenerationOutput {
                text,
                prompt_tokens,
                generated_tokens: r.generated_tokens,
                prompt_elapsed,
                decode_elapsed,
                total_elapsed,
                profile_report,
            }),
            r.generated_tokens == self.generated@.len(),
            self.phase is Finished && self.eos@.len() == 0 ==> r.generated_tokens == self.max_new,
    {
        GenerationOutput {
            text,
            prompt_tokens,
            generated_tokens: self.generated.len(),
            prompt_elapsed,
            decode_elapsed,
            total_elapsed,
            profile_report,
        }
    }
}

} // verus!
