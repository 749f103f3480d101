//! The blocking engine: one session at a time, token by token.
//!
//! What the device does stands outside. Each request first says what is to be done, and
//! is finished with what came of it.
use crate::sampling::{
    candidate, law_blocks_find_greatest, least_of_greatest, reports, single_least, single_order,
    single_orders,
};
use crate::text::{decimal_text, push_decimal};
use vstd::prelude::*;

verus! {

/// Model load options.
#[derive(Clone, Copy, Debug, PartialEq, Eq, Structural)]
pub struct LoadOpts {
    /// Maximum context length to allocate; 0 for the default of the model.
    pub max_ctx: usize,
    /// CUDA device ordinal.
    pub device_ord: usize,
}

impl Default for LoadOpts {
    fn default() -> (r: Self)
        ensures
            r == (LoadOpts { max_ctx: 0, device_ord: 0 }),
    {
        LoadOpts { max_ctx: 0, device_ord: 0 }
    }
}

impl LoadOpts {
    /// The context length that was asked for.
    pub open spec fn requested(self) -> Option<usize> {
        if self.max_ctx == 0 {
            None
        } else {
            Some(self.max_ctx)
        }
    }

    /// The context length that was asked for.
    pub fn requested_ctx(&self) -> (r: Option<usize>)
        ensures
            r == self.requested(),
    {
        if self.max_ctx == 0 {
            None
        } else {
            Some(self.max_ctx)
        }
    }
}

/// A length of 0 asks for the default of the model, every other for itself.
pub proof fn law_zero_asks_for_the_default(n: usize, device_ord: usize)
    ensures
        (LoadOpts { max_ctx: 0, device_ord }).requested() is None,
        n > 0 ==> (LoadOpts { max_ctx: n, device_ord }).requested() == Some(n),
{
}

/// What callers need to know of a model.
#[derive(Clone, Debug, PartialEq, Eq)]
pub struct ModelMeta {
    /// Vocabulary size.
    pub vocab_size: usize,
    /// Tokens that end a text.
    pub eos_token_ids: Vec<u32>,
    /// Architecture name.
    pub arch: String,
    /// Allocated maximum context length.
    pub max_ctx: usize,
}

/// Why a request is refused or failed.
#[derive(Debug)]
pub enum EngineError {
    /// An earlier reset failed, and this is the first request after it.
    PreviousReset { cause: String },
    /// A prefill without tokens.
    NoTokens,
    /// A prefill longer than the context.
    PrefillTooLong { len: usize, max_ctx: usize },
    /// A decode without a prefill before it.
    NoSession,
    /// A decode past the end of the context.
    ContextFull { position: usize, max_ctx: usize },
    /// A reset failed.
    Reset { cause: String },
    /// The device failed.
    Device { cause: String },
}

/// An error over the text of its cause.
#[verifier::ext_equal]
pub enum ErrorModel {
    PreviousReset { cause: Seq<char> },
    NoTokens,
    PrefillTooLong { len: usize, max_ctx: usize },
    NoSession,
    ContextFull { position: usize, max_ctx: usize },
    Reset { cause: Seq<char> },
    Device { cause: Seq<char> },
}

impl View for EngineError {
    type V = ErrorModel;

    open spec fn view(&self) -> ErrorModel {
        match *self {
            EngineError::PreviousReset { cause } => ErrorModel::PreviousReset { cause: cause@ },
            EngineError::NoTokens => ErrorModel::NoTokens,
            EngineError::PrefillTooLong { len, max_ctx } => ErrorModel::PrefillTooLong {
                len,
                max_ctx,
            },
            EngineError::NoSession => ErrorModel::NoSession,
            EngineError::ContextFull { position, max_ctx } => ErrorModel::ContextFull {
                position,
                max_ctx,
            },
            EngineError::Reset { cause } => ErrorModel::Reset { cause: cause@ },
            EngineError::Device { cause } => ErrorModel::Device { cause: cause@ },
        }
    }
}

impl ErrorModel {
    /// The error in words.
    pub open spec fn text(self) -> Seq<char> {
        match self {
            ErrorModel::PreviousReset { cause } => "previous reset failed: "@ + cause,
            ErrorModel::NoTokens => "prefill requires at least one token"@,
            ErrorModel::PrefillTooLong { len, max_ctx } => "prefill length "@ + decimal_text(
                len as nat,
            ) + " exceeds max_ctx="@ + decimal_text(max_ctx as nat),
            ErrorModel::NoSession => "decode requires a preceding prefill"@,
            ErrorModel::ContextFull { position, max_ctx } => "decode position "@ + decimal_text(
                position as nat,
            ) + " exceeds max_ctx="@ + decimal_text(max_ctx as nat),
            ErrorModel::Reset { cause } => "reset failed: "@ + cause,
            ErrorModel::Device { cause } => cause,
        }
    }
}

impl EngineError {
    /// The error in words.
    pub fn message(&self) -> (r: String)
        ensures
            r@ == self@.text(),
    {
        match self {
            EngineError::PreviousReset { cause } => {
                let mut s: String = "previous reset failed: ".to_owned();
                s.append(cause.as_str());
                s
            },
            EngineError::NoTokens => "prefill requires at least one token".to_owned(),
            EngineError::PrefillTooLong { len, max_ctx } => {
                let mut s: String = "prefill length ".to_owned();
                push_decimal(&mut s, *len);
                s.append(" exceeds max_ctx=");
                push_decimal(&mut s, *max_ctx);
                s
            },
            EngineError::NoSession => "decode requires a preceding prefill".to_owned(),
            EngineError::ContextFull { position, max_ctx } => {
                let mut s: String = "decode position ".to_owned();
                push_decimal(&mut s, *position);
                s.append(" exceeds max_ctx=");
                push_decimal(&mut s, *max_ctx);
                s
            },
            EngineError::Reset { cause } => {
                let mut s: String = "reset failed: ".to_owned();
                s.append(cause.as_str());
                s
            },
            EngineError::Device { cause } => {
                let mut s: String = "".to_owned();
                proof {
                    reveal_strlit("");
                }
                s.append(cause.as_str());
                assert(s@ =~= cause@);
                s
            },
        }
    }
}

/// What the device is to do for a request.
#[derive(Clone, Copy, Debug, PartialEq, Eq, Structural)]
pub enum DeviceCall {
    /// Process this many prompt tokens from position 0 on.
    Prefill { len: usize },
    /// Process one token and give the logits.
    Decode { token: u32, position: usize },
    /// Process one token and give the next.
    DecodeGreedy { token: u32, position: usize },
    /// Clear the caches.
    Reset,
    /// Process a token at position 0 and again at position 1, from clear caches to clear
    /// caches.
    Warmup { token: u32 },
}

/// The state of the engine: the context length, the position of the next token, whether
/// there is a session, and the failure of the last reset where nobody was told of it again.
#[verifier::ext_equal]
pub struct SessionModel {
    pub max_ctx: int,
    pub next_pos: int,
    pub active: bool,
    pub pending: Option<Seq<char>>,
}

impl SessionModel {
    /// A session has processed at least one token and no more than the context holds.
    pub open spec fn wf(self) -> bool {
        &&& 0 <= self.next_pos <= self.max_ctx
        &&& self.active ==> 1 <= self.next_pos
    }
}

/// Requests of the engine.
#[verifier::ext_equal]
pub enum Request {
    Prefill { len: usize },
    Decode { token: u32 },
    DecodeGreedy { token: u32 },
    Reset,
    Warmup { token: u32 },
}

/// What a request asks the device for, or why it is refused.
pub open spec fn call_for(s: SessionModel, q: Request) -> Result<DeviceCall, ErrorModel> {
    match q {
        Request::Reset => Ok(DeviceCall::Reset),
        _ => match s.pending {
            Some(cause) => Err(ErrorModel::PreviousReset { cause }),
            None => match q {
                Request::Prefill { len } => if len == 0 {
                    Err(ErrorModel::NoTokens)
                } else if len > s.max_ctx {
                    Err(ErrorModel::PrefillTooLong { len, max_ctx: s.max_ctx as usize })
                } else {
                    Ok(DeviceCall::Prefill { len })
                },
                Request::Warmup { token } => Ok(DeviceCall::Warmup { token }),
                Request::Decode { token } => if !s.active {
                    Err(ErrorModel::NoSession)
                } else if s.next_pos >= s.max_ctx {
                    Err(
                        ErrorModel::ContextFull {
                            position: s.next_pos as usize,
                            max_ctx: s.max_ctx as usize,
                        },
                    )
                } else {
                    Ok(DeviceCall::Decode { token, position: s.next_pos as usize })
                },
                Request::DecodeGreedy { token } => if !s.active {
                    Err(ErrorModel::NoSession)
                } else if s.next_pos >= s.max_ctx {
                    Err(
                        ErrorModel::ContextFull {
                            position: s.next_pos as usize,
                            max_ctx: s.max_ctx as usize,
                        },
                    )
                } else {
                    Ok(DeviceCall::DecodeGreedy { token, position: s.next_pos as usize })
                },
                Request::Reset => Ok(DeviceCall::Reset),
            },
        },
    }
}

/// The engine once it knows what the device is to do: a reset ends the session at once;
/// any other request takes note of a failed reset.
pub open spec fn begun(s: SessionModel, q: Request) -> SessionModel {
    match q {
        Request::Reset => SessionModel { next_pos: 0, active: false, ..s },
        _ => SessionModel { pending: None, ..s },
    }
}

/// The engine after the device.
pub open spec fn finished(
    s: SessionModel,
    call: DeviceCall,
    failure: Option<Seq<char>>,
) -> SessionModel {
    match failure {
        Some(cause) => match call {
            DeviceCall::Reset => SessionModel { pending: Some(cause), ..s },
            _ => s,
        },
        None => match call {
            DeviceCall::Prefill { len } => SessionModel { next_pos: len as int, active: true, ..s },
            DeviceCall::Decode { position, .. } => SessionModel { next_pos: position + 1, ..s },
            DeviceCall::DecodeGreedy { position, .. } => SessionModel {
                next_pos: position + 1,
                ..s
            },
            DeviceCall::Reset => s,
            DeviceCall::Warmup { .. } => SessionModel { next_pos: 0, active: false, ..s },
        },
    }
}

/// The engine after a whole request: refused, or done by the device with this outcome.
pub open spec fn after(s: SessionModel, q: Request, failure: Option<Seq<char>>) -> SessionModel {
    match call_for(s, q) {
        Ok(call) => finished(begun(s, q), call, failure),
        Err(_) => begun(s, q),
    }
}

/// Every request keeps the engine well-formed, whatever the device does, and no token is
/// processed past the context.
pub proof fn law_session_keeps_context(s: SessionModel, q: Request, failure: Option<Seq<char>>)
    requires
        s.wf(),
        s.max_ctx <= usize::MAX,
    ensures
        after(s, q, failure).wf(),
        after(s, q, failure).max_ctx == s.max_ctx,
        call_for(s, q) matches Ok(DeviceCall::Decode { position, .. }) ==> position == s.next_pos
            && position < s.max_ctx,
        call_for(s, q) matches Ok(DeviceCall::DecodeGreedy { position, .. }) ==> position
            == s.next_pos && position < s.max_ctx,
        call_for(s, q) matches Ok(DeviceCall::Prefill { len }) ==> 1 <= len <= s.max_ctx,
{
}

/// A failed reset is told once more: the next request fails with its cause and does not
/// reach the device, and the request after that goes ahead as if there had been none.
pub proof fn law_failed_reset_is_told_once(
    s: SessionModel,
    q: Request,
    next: Request,
    cause: Seq<char>,
    failure: Option<Seq<char>>,
)
    requires
        !(q is Reset),
    ensures
        ({
            let broken = after(s, Request::Reset, Some(cause));
            let told = after(broken, q, failure);
            &&& call_for(broken, q) == Err::<DeviceCall, ErrorModel>(
                ErrorModel::PreviousReset { cause },
            )
            &&& told == (SessionModel { next_pos: 0, active: false, pending: None, ..s })
            &&& call_for(told, next) == call_for(
                SessionModel { next_pos: 0, active: false, pending: None, ..s },
                next,
            )
        }),
{
}

/// Nothing is decoded after a reset, whether it failed or not, nor after a warm-up: a decode
/// is refused for want of a session, or first for the failed reset and then for want of a
/// session.
pub proof fn law_decode_needs_prefill(
    s: SessionModel,
    q: Request,
    failure: Option<Seq<char>>,
    decode: Request,
    again: Request,
)
    requires
        q is Reset || (q is Warmup && s.pending is None && failure is None),
        decode is Decode || decode is DecodeGreedy,
        again is Decode || again is DecodeGreedy,
    ensures
        call_for(after(s, q, failure), decode) == (match after(s, q, failure).pending {
            None => Err::<DeviceCall, ErrorModel>(ErrorModel::NoSession),
            Some(cause) => Err(ErrorModel::PreviousReset { cause }),
        }),
        call_for(after(after(s, q, failure), decode, None), again) == Err::<DeviceCall, ErrorModel>(
            ErrorModel::NoSession,
        ),
        after(s, q, failure).pending == (if failure is Some {
            failure
        } else {
            s.pending
        }),
{
}

/// A session begins with a prefill that succeeds and with nothing else: without one no request
/// starts a session, and no token is decoded.
pub proof fn law_session_starts_with_prefill(
    s: SessionModel,
    q: Request,
    failure: Option<Seq<char>>,
)
    requires
        !s.active,
    ensures
        after(s, q, failure).active <==> q is Prefill && call_for(s, q) is Ok && failure is None,
        q is Decode || q is DecodeGreedy ==> call_for(s, q) is Err,
{
}

/// The token of a warm-up: the first that ends a text, or token 0.
pub open spec fn warmup_token(eos: Seq<u32>) -> u32 {
    if eos.len() > 0 {
        eos[0]
    } else {
        0
    }
}

/// A failure of the device leaves the session as it was, unless it is a reset that failed: the
/// same request may be made again, and asks for the same.
pub proof fn law_failure_keeps_session(s: SessionModel, q: Request, cause: Seq<char>)
    requires
        s.pending is None,
        !(q is Reset),
    ensures
        after(s, q, Some(cause)) == s,
        call_for(after(s, q, Some(cause)), q) == call_for(s, q),
{
}

/// A refused request leaves the session as it was, but that a failed reset was told.
pub proof fn law_refusal_keeps_session(s: SessionModel, q: Request, failure: Option<Seq<char>>)
    requires
        call_for(s, q) is Err,
    ensures
        after(s, q, failure).next_pos == s.next_pos,
        after(s, q, failure).active == s.active,
        after(s, q, failure).max_ctx == s.max_ctx,
        after(s, q, failure).pending is None,
{
}

/// A prompt begins anew, whatever was processed before it: the device is asked for all of it,
/// and the next token follows it.
pub proof fn law_prompt_begins_anew(s: SessionModel, len: usize)
    requires
        s.pending is None,
        1 <= len <= s.max_ctx,
    ensures
        call_for(s, Request::Prefill { len }) == Ok::<DeviceCall, ErrorModel>(
            DeviceCall::Prefill { len },
        ),
        after(s, Request::Prefill { len }, None) == (SessionModel {
            max_ctx: s.max_ctx,
            next_pos: len as int,
            active: true,
            pending: None,
        }),
{
}

/// A reset and a warm-up that succeed leave no session, and the position at the start; the
/// warm-up processes the first token that ends a text, or token 0 where none does.
pub proof fn law_session_is_cleared(s: SessionModel, first: u32, rest: Seq<u32>, token: u32)
    requires
        s.pending is None,
    ensures
        warmup_token(Seq::empty()) == 0,
        warmup_token(seq![first] + rest) == first,
        call_for(s, Request::Reset) == Ok::<DeviceCall, ErrorModel>(DeviceCall::Reset),
        call_for(s, Request::Warmup { token }) == Ok::<DeviceCall, ErrorModel>(
            DeviceCall::Warmup { token },
        ),
        after(s, Request::Reset, None) == (SessionModel { next_pos: 0, active: false, ..s }),
        after(s, Request::Warmup { token }, None) == (SessionModel {
            next_pos: 0,
            active: false,
            ..s
        }),
{
}

/// An empty prompt and one longer than the context are refused, each for its own reason.
pub proof fn law_prompts_are_refused(s: SessionModel, len: usize)
    requires
        s.pending is None,
        0 <= s.max_ctx <= usize::MAX,
    ensures
        call_for(s, Request::Prefill { len: 0 }) == Err::<DeviceCall, ErrorModel>(
            ErrorModel::NoTokens,
        ),
        len > s.max_ctx ==> call_for(s, Request::Prefill { len }) == Err::<DeviceCall, ErrorModel>(
            ErrorModel::PrefillTooLong { len, max_ctx: s.max_ctx as usize },
        ),
{
}

/// A full context takes no token, however it is decoded.
pub proof fn law_full_context_is_told(s: SessionModel, q: Request)
    requires
        s.pending is None,
        s.active,
        0 <= s.max_ctx <= usize::MAX,
        s.next_pos == s.max_ctx,
        q is Decode || q is DecodeGreedy,
    ensures
        call_for(s, q) == Err::<DeviceCall, ErrorModel>(
            ErrorModel::ContextFull { position: s.max_ctx as usize, max_ctx: s.max_ctx as usize },
        ),
{
}

/// What the errors say, and the numbers that they name.
pub proof fn law_messages(cause: Seq<char>, n: usize, max_ctx: usize)
    ensures
        (ErrorModel::PreviousReset { cause }).text() == "previous reset failed: "@ + cause,
        (ErrorModel::Reset { cause }).text() == "reset failed: "@ + cause,
        (ErrorModel::Device { cause }).text() == cause,
        ErrorModel::NoTokens.text() == "prefill requires at least one token"@,
        ErrorModel::NoSession.text() == "decode requires a preceding prefill"@,
        (ErrorModel::PrefillTooLong { len: n, max_ctx }).text() == "prefill length "@
            + decimal_text(n as nat) + " exceeds max_ctx="@ + decimal_text(max_ctx as nat),
        (ErrorModel::ContextFull { position: n, max_ctx }).text() == "decode position "@
            + decimal_text(n as nat) + " exceeds max_ctx="@ + decimal_text(max_ctx as nat),
{
}

/// The engine after a prefill and then these requests, each done by the device.
pub open spec fn decoded(s: SessionModel, len: usize, requests: Seq<Request>) -> SessionModel
    decreases requests.len(),
{
    if requests.len() == 0 {
        after(s, Request::Prefill { len }, None)
    } else {
        after(decoded(s, len, requests.drop_last()), requests.last(), None)
    }
}

/// Tokens follow the prompt without gap, however they are decoded: while the context has room,
/// the token after those of `requests` goes to the position that the prompt and they leave.
pub proof fn law_tokens_follow_prompt(
    s: SessionModel,
    len: usize,
    requests: Seq<Request>,
    token: u32,
)
    requires
        s.pending is None,
        1 <= len,
        len + requests.len() < s.max_ctx,
        s.max_ctx <= usize::MAX,
        forall|i: int|
            0 <= i < requests.len() ==> #[trigger] requests[i] is Decode
                || requests[i] is DecodeGreedy,
    ensures
        decoded(s, len, requests) == (SessionModel {
            next_pos: len + requests.len(),
            active: true,
            ..s
        }),
        call_for(decoded(s, len, requests), Request::Decode { token }) == Ok::<
            DeviceCall,
            ErrorModel,
        >(DeviceCall::Decode { token, position: (len + requests.len()) as usize }),
        call_for(decoded(s, len, requests), Request::DecodeGreedy { token }) == Ok::<
            DeviceCall,
            ErrorModel,
        >(DeviceCall::DecodeGreedy { token, position: (len + requests.len()) as usize }),
    decreases requests.len(),
{
    if requests.len() > 0 {
        let before = requests.drop_last();
        assert forall|i: int| 0 <= i < before.len() implies #[trigger] before[i] is Decode
            || before[i] is DecodeGreedy by {
            assert(before[i] == requests[i]);
        }
        law_tokens_follow_prompt(s, len, before, token);
        assert(requests.last() == requests[requests.len() - 1]);
    }
}

/// Greedy decoding goes as plain decoding does, and takes the greatest logit: it is refused
/// for the same reasons, asks for the same position and leaves the same session; and where
/// every block of the logits reports its own greatest, the place found out of the blocks is
/// one of the vocabulary, and no logit is greater than the one there.
pub proof fn law_greedy_decode_is_greatest(
    s: SessionModel,
    token: u32,
    failure: Option<Seq<char>>,
    logits: Seq<u32>,
    block: int,
    maxes: Seq<u32>,
    places: Seq<u32>,
    r: int,
)
    requires
        block > 0,
        maxes.len() == places.len(),
        0 < logits.len() <= maxes.len() * block,
        forall|i: int|
            #![trigger maxes[i]]
            0 <= i < maxes.len() ==> reports(single_orders(logits), block, maxes, places, i),
        least_of_greatest(maxes, places, logits.len() as int, r),
    ensures
        call_for(s, Request::DecodeGreedy { token }) == (match call_for(
            s,
            Request::Decode { token },
        ) {
            Ok(DeviceCall::Decode { token, position }) => Ok(
                DeviceCall::DecodeGreedy { token, position },
            ),
            other => other,
        }),
        after(s, Request::DecodeGreedy { token }, failure) == after(
            s,
            Request::Decode { token },
            failure,
        ),
        0 <= r < logits.len(),
        single_order(logits[r]) matches Some(k) ==> forall|j: int|
            0 <= j < logits.len() && single_order(#[trigger] logits[j]) is Some ==> single_order(
                logits[j],
            )->0 <= k,
{
    let orders = single_orders(logits);
    law_blocks_find_greatest(orders, block, maxes, places, r);
    assert forall|j: int|
        0 <= j < logits.len() && single_order(#[trigger] logits[j]) is Some && single_order(
            logits[r],
        ) is Some implies single_order(logits[j])->0 <= single_order(logits[r])->0 by {
        assert(orders[j] == single_order(logits[j]));
        assert(orders[r] == single_order(logits[r]));
        if candidate(orders, single_least(), j) {
            assert(candidate(orders, single_least(), r));
        }
    }
}

/// The engine's bookkeeping.
#[derive(Debug)]
pub struct Engine {
    meta: ModelMeta,
    next_pos: usize,
    session_active: bool,
    pending_reset_error: Option<String>,
}

impl View for Engine {
    type V = SessionModel;

    closed spec fn view(&self) -> SessionModel {
        SessionModel {
            max_ctx: self.meta.max_ctx as int,
            next_pos: self.next_pos as int,
            active: self.session_active,
            pending: match self.pending_reset_error {
                Some(cause) => Some(cause@),
                None => None,
            },
        }
    }
}

impl Engine {
    /// What the model is.
    pub closed spec fn info(&self) -> ModelMeta {
        self.meta
    }

    /// The engine is in one of its states.
    pub open spec fn wf(&self) -> bool {
        self@.wf() && self@.max_ctx == self.info().max_ctx
    }

    /// An engine that has just loaded its model.
    pub fn new(meta: ModelMeta) -> (r: Self)
        ensures
            r.wf(),
            r.info() == meta,
            r@ == (SessionModel {
                max_ctx: meta.max_ctx as int,
                next_pos: 0,
                active: false,
                pending: None,
            }),
    {
        Engine { meta, next_pos: 0, session_active: false, pending_reset_error: None }
    }

    /// What the model is.
    pub fn meta(&self) -> (r: &ModelMeta)
        ensures
            *r == self.info(),
    {
        &self.meta
    }

    /// Where the next token goes.
    pub fn position(&self) -> (r: usize)
        ensures
            r == self@.next_pos,
    {
        self.next_pos
    }

    fn take_pending_reset_error(&mut self) -> (r: Result<(), EngineError>)
        ensures
            final(self).info() == old(self).info(),
            final(self)@ == (SessionModel { pending: None, ..old(self)@ }),
            match r {
                Ok(_) => old(self)@.pending is None,
                Err(e) => old(self)@.pending matches Some(cause) && e@
                    == (ErrorModel::PreviousReset { cause }),
            },
    {
        match self.pending_reset_error.take() {
            Some(cause) => Err(EngineError::PreviousReset { cause }),
            None => Ok(()),
        }
    }

    fn ensure_decode_ready(&self) -> (r: Result<usize, EngineError>)
        ensures
            match r {
                Ok(p) => self@.active && p == self@.next_pos && p < self@.max_ctx,
                Err(e) => if !self@.active {
                    e@ == ErrorModel::NoSession
                } else {
                    &&& self@.next_pos >= self@.max_ctx
                    &&& e@ == (ErrorModel::ContextFull {
                        position: self@.next_pos as usize,
                        max_ctx: self@.max_ctx as usize,
                    })
                },
            },
    {
        if !self.session_active {
            return Err(EngineError::NoSession);
        }
        if self.next_pos >= self.meta.max_ctx {
            return Err(
                EngineError::ContextFull { position: self.next_pos, max_ctx: self.meta.max_ctx },
            );
        }
        Ok(self.next_pos)
    }

    /// Begins a session over a prompt.
    pub fn prefill(&mut self, tokens: &[u32]) -> (r: Result<DeviceCall, EngineError>)
        ensures
            final(self).info() == old(self).info(),
            final(self)@ == begun(old(self)@, Request::Prefill { len: tokens@.len() as usize }),
            match r {
                Ok(c) => call_for(old(self)@, Request::Prefill { len: tokens@.len() as usize }) == Ok::<
                    DeviceCall,
                    ErrorModel,
                >(c),
                Err(e) => call_for(old(self)@, Request::Prefill { len: tokens@.len() as usize })
                    == Err::<DeviceCall, ErrorModel>(e@),
            },
    {
        self.take_pending_reset_error()?;
        if tokens.len() == 0 {
            return Err(EngineError::NoTokens);
        }
        if tokens.len() > self.meta.max_ctx {
            return Err(
                EngineError::PrefillTooLong { len: tokens.len(), max_ctx: self.meta.max_ctx },
            );
        }
        Ok(DeviceCall::Prefill { len: tokens.len() })
    }

    /// Goes on with a token, for the logits after it.
    pub fn decode(&mut self, token: u32) -> (r: Result<DeviceCall, EngineError>)
        ensures
            final(self).info() == old(self).info(),
            final(self)@ == begun(old(self)@, Request::Decode { token }),
            match r {
                Ok(c) => call_for(old(self)@, Request::Decode { token }) == Ok::<
                    DeviceCall,
                    ErrorModel,
                >(c),
                Err(e) => call_for(old(self)@, Request::Decode { token }) == Err::<
                    DeviceCall,
                    ErrorModel,
                >(e@),
            },
    {
        self.take_pending_reset_error()?;
        let position: usize = self.ensure_decode_ready()?;
        Ok(DeviceCall::Decode { token, position })
    }

    /// Goes on with a token, for the most likely token after it.
    pub fn decode_greedy(&mut self, token: u32) -> (r: Result<DeviceCall, EngineError>)
        ensures
            final(self).info() == old(self).info(),
            final(self)@ == begun(old(self)@, Request::DecodeGreedy { token }),
            match r {
                Ok(c) => call_for(old(self)@, Request::DecodeGreedy { token }) == Ok::<
                    DeviceCall,
                    ErrorModel,
                >(c),
                Err(e) => call_for(old(self)@, Request::DecodeGreedy { token }) == Err::<
                    DeviceCall,
                    ErrorModel,
                >(e@),
            },
    {
        self.take_pending_reset_error()?;
        let position: usize = self.ensure_decode_ready()?;
        Ok(DeviceCall::DecodeGreedy { token, position })
    }

    /// Ends the session.
    pub fn reset(&mut self) -> (r: DeviceCall)
        ensures
            final(self).info() == old(self).info(),
            final(self)@ == begun(old(self)@, Request::Reset),
            r == DeviceCall::Reset,
    {
        self.next_pos = 0;
        self.session_active = false;
        DeviceCall::Reset
    }

    /// Has the device process a token that ends a text, or token 0, before there is a
    /// session.
    pub fn warmup(&mut self) -> (r: Result<DeviceCall, EngineError>)
        ensures
            final(self).info() == old(self).info(),
            ({
                let q = Request::Warmup { token: warmup_token(old(self).info().eos_token_ids@) };
                &&& final(self)@ == begun(old(self)@, q)
                &&& match r {
                    Ok(c) => call_for(old(self)@, q) == Ok::<DeviceCall, ErrorModel>(c),
                    Err(e) => call_for(old(self)@, q) == Err::<DeviceCall, ErrorModel>(e@),
                }
            }),
    {
        self.take_pending_reset_error()?;
        let token: u32 = if self.meta.eos_token_ids.len() > 0 {
            self.meta.eos_token_ids[0]
        } else {
            0
        };
        Ok(DeviceCall::Warmup { token })
    }

    /// Takes note of what the device did. A failed reset is kept for the next request.
    pub fn finish(&mut self, call: DeviceCall, failure: Option<String>) -> (r: Result<
        (),
        EngineError,
    >)
        requires
            call matches DeviceCall::Decode { position, .. } ==> position < usize::MAX,
            call matches DeviceCall::DecodeGreedy { position, .. } ==> position < usize::MAX,
        ensures
            final(self).info() == old(self).info(),
            final(self)@ == finished(
                old(self)@,
                call,
                match failure {
                    Some(cause) => Some(cause@),
                    None => None,
                },
            ),
            match r {
                Ok(_) => failure is None,
                Err(e) => failure matches Some(cause) && e@ == (if call is Reset {
                    ErrorModel::Reset { cause: cause@ }
                } else {
                    ErrorModel::Device { cause: cause@ }
                }),
            },
    {
        match failure {
            Some(cause) => match call {
                DeviceCall::Reset => {
                    let mut told: String = "".to_owned();
                    proof {
                        reveal_strlit("");
                    }
                    told.append(cause.as_str());
                    assert(told@ =~= cause@);
                    self.pending_reset_error = Some(cause);
                    Err(EngineError::Reset { cause: told })
                },
                _ => Err(EngineError::Device { cause }),
            },
            None => {
                match call {
                    DeviceCall::Prefill { len } => {
                        self.next_pos = len;
                        self.session_active = true;
                    },
                    DeviceCall::Decode { position, .. } => {
                        self.next_pos = position + 1;
                    },
                    DeviceCall::DecodeGreedy { position, .. } => {
                        self.next_pos = position + 1;
                    },
                    DeviceCall::Reset => {},
                    DeviceCall::Warmup { .. } => {
                        self.next_pos = 0;
                        self.session_active = false;
                    },
                }
                Ok(())
            },
        }
    }
}

} // verus!
