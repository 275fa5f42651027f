//! Per-request state: the token buffer, the stop conditions and the
//! lifecycle of one sequence.

use vstd::prelude::*;
use std::sync::mpsc::Sender;
use crate::request::{send_response, Constraint, RequestType, SamplingParams};
use crate::response::Response;
use crate::text::{find_stop, first_stop, lemma_first_stop_is_earliest, truncated};

verus! {

/// Why a sequence stopped generating.
#[derive(Clone, Copy, Debug, PartialEq, Eq, Structural)]
pub enum StopReason {
    Eos,
    StopTokenId,
    StopString,
    MaxLength,
    ModelError,
    Canceled,
}

/// The lifecycle of a sequence. Transitions only move forward:
/// `Waiting`, then `Running`, then `Finished`.
#[derive(Clone, Copy, Debug, PartialEq, Eq, Structural)]
pub enum SequenceState {
    Waiting,
    Running,
    Finished(StopReason),
}

impl SequenceState {
    /// The position of a state in the lifecycle.
    pub open spec fn rank(self) -> nat {
        match self {
            SequenceState::Waiting => 0,
            SequenceState::Running => 1,
            SequenceState::Finished(_) => 2,
        }
    }

    pub fn is_finished(&self) -> (r: bool)
        ensures
            r == (*self is Finished),
    {
        match self {
            SequenceState::Finished(_) => true,
            _ => false,
        }
    }
}

/// When generation ends.
pub struct StopConditions {
    /// The end-of-sequence token.
    pub eos_token: u32,
    /// Further tokens that end the sequence.
    pub stop_token_ids: Vec<u32>,
    /// Strings that end the sequence when they show up in the generated
    /// text. An empty string never does.
    pub stop_strings: Vec<Vec<u8>>,
    /// The largest number of tokens to generate, if limited.
    pub max_new_tokens: Option<usize>,
}

/// The stop conditions as plain values.
pub struct StopView {
    pub eos_token: u32,
    pub stop_token_ids: Seq<u32>,
    pub stop_strings: Seq<Seq<u8>>,
    pub max_new_tokens: Option<usize>,
}

/// The reason, if any, to stop after `token` was appended.
///
/// `text` is the text generated so far, `generated` the number of generated
/// tokens and `total` the number of all tokens, each with the new token
/// counted in. The conditions are tried in a fixed order, and the first one
/// that holds gives the reason: the end-of-sequence token, the stop tokens,
/// the stop strings, the limit on generated tokens, the limit on the
/// sequence length.
pub open spec fn stop_reason(
    stop: StopView,
    token: u32,
    text: Seq<u8>,
    generated: nat,
    total: nat,
    max_seq_len: nat,
) -> Option<StopReason> {
    if token == stop.eos_token {
        Some(StopReason::Eos)
    } else if stop.stop_token_ids.contains(token) {
        Some(StopReason::StopTokenId)
    } else if first_stop(text, stop.stop_strings) is Some {
        Some(StopReason::StopString)
    } else if stop.max_new_tokens is Some && generated >= stop.max_new_tokens->0 {
        Some(StopReason::MaxLength)
    } else if total >= max_seq_len {
        Some(StopReason::MaxLength)
    } else {
        None
    }
}

/// Stop precedence. When several conditions hold at the same position, the
/// reason is the one of highest priority: end-of-sequence over stop token,
/// stop token over stop string, stop string over either length limit. And a
/// sequence goes on only when no condition holds.
pub proof fn lemma_stop_precedence(
    stop: StopView,
    token: u32,
    text: Seq<u8>,
    generated: nat,
    total: nat,
    max_seq_len: nat,
)
    ensures
        ({
            let is_eos = token == stop.eos_token;
            let is_stop_token = stop.stop_token_ids.contains(token);
            let has_stop_string = first_stop(text, stop.stop_strings) is Some;
            let too_long = (stop.max_new_tokens is Some && generated >= stop.max_new_tokens->0)
                || total >= max_seq_len;
            let reason = stop_reason(stop, token, text, generated, total, max_seq_len);
            &&& is_eos ==> reason == Some(StopReason::Eos)
            &&& !is_eos && is_stop_token ==> reason == Some(StopReason::StopTokenId)
            &&& !is_eos && !is_stop_token && has_stop_string ==> reason == Some(
                StopReason::StopString,
            )
            &&& !is_eos && !is_stop_token && !has_stop_string && too_long ==> reason == Some(
                StopReason::MaxLength,
            )
            &&& reason is None <==> !is_eos && !is_stop_token && !has_stop_string && !too_long
            &&& reason != Some(StopReason::ModelError) && reason != Some(StopReason::Canceled)
        }),
{
}

impl StopConditions {
    pub open spec fn view(&self) -> StopView {
        StopView {
            eos_token: self.eos_token,
            stop_token_ids: self.stop_token_ids@,
            stop_strings: self.stop_strings.deep_view(),
            max_new_tokens: self.max_new_tokens,
        }
    }

    /// Whether `token` is one of the stop tokens.
    pub fn is_stop_token(&self, token: u32) -> (b: bool)
        ensures
            b == self@.stop_token_ids.contains(token),
    {
        let mut i: usize = 0;
        while i < self.stop_token_ids.len()
            invariant
                i <= self.stop_token_ids.len(),
                forall|k: int| 0 <= k < i ==> self.stop_token_ids[k] != token,
            decreases self.stop_token_ids.len() - i,
        {
            if self.stop_token_ids[i] == token {
                return true;
            }
            i = i + 1;
        }
        false
    }

    /// The reason, if any, to stop after `token` was appended.
    pub fn check(
        &self,
        token: u32,
        text: &Vec<u8>,
        generated: usize,
        total: usize,
        max_seq_len: usize,
    ) -> (r: Option<StopReason>)
        ensures
            r == stop_reason(
                self@,
                token,
                text@,
                generated as nat,
                total as nat,
                max_seq_len as nat,
            ),
    {
        if token == self.eos_token {
            return Some(StopReason::Eos);
        }
        if self.is_stop_token(token) {
            return Some(StopReason::StopTokenId);
        }
        if find_stop(text, &self.stop_strings).is_some() {
            return Some(StopReason::StopString);
        }
        match self.max_new_tokens {
            Some(m) => {
                if generated >= m {
                    return Some(StopReason::MaxLength);
                }
            },
            None => {},
        }
        if total >= max_seq_len {
            return Some(StopReason::MaxLength);
        }
        None
    }
}

/// A sequence as plain values.
pub struct SequenceView {
    pub id: usize,
    pub timestamp: u64,
    /// Prompt tokens followed by generated tokens.
    pub tokens: Seq<u32>,
    pub prompt_len: nat,
    /// The generated text as last reported, cut before a stop string that
    /// ended the sequence.
    pub text: Seq<u8>,
    pub state: SequenceState,
    pub stop: StopView,
    pub max_seq_len: usize,
    pub is_streaming: bool,
    pub return_logprobs: bool,
    pub request_type: RequestType,
    /// How the tokens of the sequence are sampled.
    pub params: SamplingParams,
    /// The grammar that the tokens of the sequence follow.
    pub constraint: Constraint,
    /// Where the responses of the sequence go.
    pub sink: Sender<Response>,
}

/// What can happen to a sequence.
pub enum SequenceEvent {
    /// The scheduler picked the sequence for its first step.
    Start,
    /// A token was sampled; `text` is the generated text including it.
    Token { token: u32, text: Seq<u8> },
    /// The model failed on this sequence.
    Fail,
    /// The receiver of the responses went away.
    Cancel,
}

impl SequenceView {
    /// The prompt is part of the buffer.
    pub open spec fn wf(self) -> bool {
        self.prompt_len <= self.tokens.len()
    }

    /// Number of generated tokens.
    pub open spec fn generated(self) -> nat {
        if self.prompt_len <= self.tokens.len() {
            (self.tokens.len() - self.prompt_len) as nat
        } else {
            0
        }
    }

    /// The generated tokens.
    pub open spec fn completion(self) -> Seq<u32> {
        if self.prompt_len <= self.tokens.len() {
            self.tokens.skip(self.prompt_len as int)
        } else {
            Seq::empty()
        }
    }

    /// The reason, if any, for which the sequence stops when `token` is
    /// appended and the generated text becomes `text`.
    pub open spec fn reason_after(self, token: u32, text: Seq<u8>) -> Option<StopReason> {
        stop_reason(
            self.stop,
            token,
            text,
            self.generated() + 1,
            self.tokens.len() + 1,
            self.max_seq_len as nat,
        )
    }

    /// The sequence after an event. An event that does not apply in the
    /// current state changes nothing: a start when not waiting, a token when
    /// not running, a failure or a cancellation when already finished.
    pub open spec fn step(self, event: SequenceEvent) -> SequenceView {
        match event {
            SequenceEvent::Start => if self.state is Waiting {
                SequenceView { state: SequenceState::Running, ..self }
            } else {
                self
            },
            SequenceEvent::Token { token, text } => if self.state is Running {
                match self.reason_after(token, text) {
                    Some(reason) => SequenceView {
                        tokens: self.tokens.push(token),
                        text: if reason == StopReason::StopString {
                            truncated(text, self.stop.stop_strings)
                        } else {
                            text
                        },
                        state: SequenceState::Finished(reason),
                        ..self
                    },
                    None => SequenceView { tokens: self.tokens.push(token), text, ..self },
                }
            } else {
                self
            },
            SequenceEvent::Fail => if self.state is Finished {
                self
            } else {
                SequenceView { state: SequenceState::Finished(StopReason::ModelError), ..self }
            },
            SequenceEvent::Cancel => if self.state is Finished {
                self
            } else {
                SequenceView { state: SequenceState::Finished(StopReason::Canceled), ..self }
            },
        }
    }

    /// The sequence after a run of events.
    pub open spec fn run(self, events: Seq<SequenceEvent>) -> SequenceView
        decreases events.len(),
    {
        if events.len() == 0 {
            self
        } else {
            self.run(events.drop_last()).step(events.last())
        }
    }

    /// Number of events of a run at which the sequence turns from unfinished
    /// to finished.
    pub open spec fn terminations(self, events: Seq<SequenceEvent>) -> nat
        decreases events.len(),
    {
        if events.len() == 0 {
            0
        } else {
            let before = self.run(events.drop_last());
            let here: nat = if !(before.state is Finished) && before.step(events.last()).state
                is Finished {
                1
            } else {
                0
            };
            self.terminations(events.drop_last()) + here
        }
    }
}

/// One event never shortens or rewrites the token buffer, never moves the
/// lifecycle backwards, and leaves a finished sequence as it is.
pub proof fn lemma_step_is_monotonic(s: SequenceView, event: SequenceEvent)
    ensures
        s.tokens.is_prefix_of(s.step(event).tokens),
        s.step(event).tokens.len() <= s.tokens.len() + 1,
        s.step(event).prompt_len == s.prompt_len,
        s.step(event).id == s.id,
        s.step(event).timestamp == s.timestamp,
        s.wf() ==> s.step(event).wf(),
        s.state.rank() <= s.step(event).state.rank(),
        s.state is Finished ==> s.step(event) == s,
{
}

/// Token monotonicity. Along any run of events, the token buffer at a later
/// time extends the token buffer at an earlier time as a prefix.
pub proof fn lemma_tokens_are_append_only(
    s: SequenceView,
    events: Seq<SequenceEvent>,
    t1: int,
    t2: int,
)
    requires
        0 <= t1 <= t2 <= events.len(),
    ensures
        s.run(events.take(t1)).tokens.is_prefix_of(s.run(events.take(t2)).tokens),
    decreases t2 - t1,
{
    if t1 < t2 {
        lemma_tokens_are_append_only(s, events, t1, t2 - 1);
        assert(events.take(t2).drop_last() =~= events.take(t2 - 1));
        lemma_step_is_monotonic(s.run(events.take(t2 - 1)), events.take(t2).last());
    }
}

/// The lifecycle only moves forward: along any run of events the state at a
/// later time is not before the state at an earlier time, and a sequence
/// that was finished stays exactly as it was.
pub proof fn lemma_lifecycle_is_monotonic(
    s: SequenceView,
    events: Seq<SequenceEvent>,
    t1: int,
    t2: int,
)
    requires
        0 <= t1 <= t2 <= events.len(),
    ensures
        s.run(events.take(t1)).state.rank() <= s.run(events.take(t2)).state.rank(),
        s.run(events.take(t1)).state is Finished ==> s.run(events.take(t2)) == s.run(
            events.take(t1),
        ),
    decreases t2 - t1,
{
    if t1 < t2 {
        lemma_lifecycle_is_monotonic(s, events, t1, t2 - 1);
        assert(events.take(t2).drop_last() =~= events.take(t2 - 1));
        lemma_step_is_monotonic(s.run(events.take(t2 - 1)), events.take(t2).last());
    }
}

/// A waiting sequence has generated nothing: as long as a sequence that
/// starts out waiting with nothing generated is still waiting, its buffer
/// holds the prompt and nothing else.
pub proof fn lemma_waiting_has_generated_nothing(s: SequenceView, events: Seq<SequenceEvent>)
    requires
        s.state is Waiting,
        s.generated() == 0,
    ensures
        s.run(events).state is Waiting ==> s.run(events).generated() == 0 && s.run(
            events,
        ).tokens == s.tokens,
    decreases events.len(),
{
    if events.len() > 0 {
        lemma_waiting_has_generated_nothing(s, events.drop_last());
        lemma_step_is_monotonic(s.run(events.drop_last()), events.last());
    }
}

/// Single termination. A sequence that starts out unfinished terminates at
/// most once in any run of events, and exactly once if and only if it is
/// finished at the end of the run.
pub proof fn lemma_terminates_once(s: SequenceView, events: Seq<SequenceEvent>)
    requires
        !(s.state is Finished),
    ensures
        s.terminations(events) <= 1,
        s.terminations(events) == 1 <==> s.run(events).state is Finished,
    decreases events.len(),
{
    if events.len() > 0 {
        lemma_terminates_once(s, events.drop_last());
        lemma_step_is_monotonic(s.run(events.drop_last()), events.last());
    }
}

/// One request in flight.
pub struct Sequence {
    id: usize,
    timestamp: u64,
    tokens: Vec<u32>,
    prompt_len: usize,
    text: Vec<u8>,
    state: SequenceState,
    stop: StopConditions,
    max_seq_len: usize,
    is_streaming: bool,
    return_logprobs: bool,
    request_type: RequestType,
    params: SamplingParams,
    constraint: Constraint,
    responder: Sender<Response>,
}

impl Sequence {
    pub closed spec fn view(&self) -> SequenceView {
        SequenceView {
            id: self.id,
            timestamp: self.timestamp,
            tokens: self.tokens@,
            prompt_len: self.prompt_len as nat,
            text: self.text@,
            state: self.state,
            stop: self.stop@,
            max_seq_len: self.max_seq_len,
            is_streaming: self.is_streaming,
            return_logprobs: self.return_logprobs,
            request_type: self.request_type,
            params: self.params,
            constraint: self.constraint,
            sink: self.responder,
        }
    }

    /// A waiting sequence whose buffer holds the prompt, whose tokens are
    /// sampled as `params` and `constraint` say, and whose responses go to
    /// `responder`.
    pub fn new(
        id: usize,
        timestamp: u64,
        prompt: Vec<u32>,
        stop: StopConditions,
        max_seq_len: usize,
        is_streaming: bool,
        return_logprobs: bool,
        request_type: RequestType,
        params: SamplingParams,
        constraint: Constraint,
        responder: Sender<Response>,
    ) -> (s: Sequence)
        ensures
            s@.wf(),
            s@ == (SequenceView {
                id,
                timestamp,
                tokens: prompt@,
                prompt_len: prompt@.len(),
                text: Seq::<u8>::empty(),
                state: SequenceState::Waiting,
                stop: stop@,
                max_seq_len,
                is_streaming,
                return_logprobs,
                request_type,
                params,
                constraint,
                sink: responder,
            }),
    {
        let prompt_len = prompt.len();
        Sequence {
            id,
            timestamp,
            tokens: prompt,
            prompt_len,
            text: Vec::new(),
            state: SequenceState::Waiting,
            stop,
            max_seq_len,
            is_streaming,
            return_logprobs,
            request_type,
            params,
            constraint,
            responder,
        }
    }

    /// How the tokens of the sequence are sampled.
    pub fn sampling_params(&self) -> (p: &SamplingParams)
        ensures
            *p == self@.params,
    {
        &self.params
    }

    /// The grammar that the tokens of the sequence follow.
    pub fn constraint(&self) -> (c: &Constraint)
        ensures
            *c == self@.constraint,
    {
        &self.constraint
    }

    pub fn request_type(&self) -> (t: RequestType)
        ensures
            t == self@.request_type,
    {
        self.request_type
    }

    /// Hands a response to the sequence's sink. When the receiver is gone,
    /// the sequence is canceled. Returns whether the response was taken.
    pub(crate) fn emit(&mut self, response: Response) -> (delivered: bool)
        ensures
            final(self)@ == if delivered {
                old(self)@
            } else {
                old(self)@.step(SequenceEvent::Cancel)
            },
    {
        let delivered = send_response(&self.responder, response);
        self.after_send(delivered);
        delivered
    }

    /// Takes note of what became of a message that was handed to the sink:
    /// a sequence whose message was not taken is canceled, since nobody is
    /// there to receive what it generates.
    pub fn after_send(&mut self, delivered: bool)
        ensures
            final(self)@ == if delivered {
                old(self)@
            } else {
                old(self)@.step(SequenceEvent::Cancel)
            },
    {
        if !delivered {
            self.cancel();
        }
    }

    pub fn id(&self) -> (id: usize)
        ensures
            id == self@.id,
    {
        self.id
    }

    pub fn timestamp(&self) -> (t: u64)
        ensures
            t == self@.timestamp,
    {
        self.timestamp
    }

    /// Number of tokens in the buffer.
    pub fn len(&self) -> (n: usize)
        ensures
            n == self@.tokens.len(),
    {
        self.tokens.len()
    }

    /// The buffer: prompt tokens, then generated tokens.
    pub fn get_toks(&self) -> (toks: &Vec<u32>)
        ensures
            toks@ == self@.tokens,
    {
        &self.tokens
    }

    /// Number of prompt tokens.
    pub fn prompt_len(&self) -> (n: usize)
        ensures
            n == self@.prompt_len,
    {
        self.prompt_len
    }

    /// Number of generated tokens.
    pub fn generated_len(&self) -> (n: usize)
        ensures
            n == self@.generated(),
    {
        if self.prompt_len <= self.tokens.len() {
            self.tokens.len() - self.prompt_len
        } else {
            0
        }
    }

    /// The generated text as last reported.
    pub fn text(&self) -> (t: &Vec<u8>)
        ensures
            t@ == self@.text,
    {
        &self.text
    }

    pub fn state(&self) -> (s: SequenceState)
        ensures
            s == self@.state,
    {
        self.state
    }

    pub fn is_finished(&self) -> (b: bool)
        ensures
            b == (self@.state is Finished),
    {
        self.state.is_finished()
    }

    pub fn is_streaming(&self) -> (b: bool)
        ensures
            b == self@.is_streaming,
    {
        self.is_streaming
    }

    pub fn return_logprobs(&self) -> (b: bool)
        ensures
            b == self@.return_logprobs,
    {
        self.return_logprobs
    }

    pub fn stop_conditions(&self) -> (s: &StopConditions)
        ensures
            s@ == self@.stop,
    {
        &self.stop
    }

    pub fn max_seq_len(&self) -> (n: usize)
        ensures
            n == self@.max_seq_len,
    {
        self.max_seq_len
    }

    /// A copy of the generated tokens.
    pub fn completion(&self) -> (toks: Vec<u32>)
        ensures
            toks@ == self@.completion(),
    {
        let mut toks: Vec<u32> = Vec::new();
        if self.prompt_len > self.tokens.len() {
            return toks;
        }
        let mut i: usize = self.prompt_len;
        while i < self.tokens.len()
            invariant
                self.prompt_len <= i <= self.tokens.len(),
                toks@ == self.tokens@.subrange(self.prompt_len as int, i as int),
            decreases self.tokens.len() - i,
        {
            toks.push(self.tokens[i]);
            proof {
                assert(self.tokens@.subrange(self.prompt_len as int, i + 1)
                    =~= self.tokens@.subrange(self.prompt_len as int, i as int).push(
                    self.tokens@[i as int],
                ));
            }
            i = i + 1;
        }
        proof {
            assert(self.tokens@.subrange(self.prompt_len as int, self.tokens.len() as int)
                =~= self.tokens@.skip(self.prompt_len as int));
        }
        toks
    }

    /// Moves a waiting sequence to running.
    pub fn start(&mut self)
        ensures
            final(self)@ == old(self)@.step(SequenceEvent::Start),
    {
        match self.state {
            SequenceState::Waiting => {
                self.state = SequenceState::Running;
            },
            _ => {},
        }
    }

    /// Appends a sampled token to a running sequence and checks the stop
    /// conditions; `text` is the generated text including the new token.
    /// Returns the reason if the sequence finished with this token.
    pub fn add_token(&mut self, token: u32, text: Vec<u8>) -> (r: Option<StopReason>)
        ensures
            final(self)@ == old(self)@.step(SequenceEvent::Token { token, text: text@ }),
            r == if old(self)@.state is Running {
                old(self)@.reason_after(token, text@)
            } else {
                None
            },
    {
        match self.state {
            SequenceState::Running => {},
            _ => {
                return None;
            },
        }
        // counts that would not fit the machine word are at any limit anyway
        let generated = self.generated_len().saturating_add(1);
        let total = self.tokens.len().saturating_add(1);
        let reason = self.stop.check(token, &text, generated, total, self.max_seq_len);
        self.tokens.push(token);
        match reason {
            Some(StopReason::StopString) => {
                let cut = find_stop(&text, &self.stop.stop_strings);
                let mut kept = text;
                match cut {
                    Some(i) => {
                        proof {
                            lemma_first_stop_is_earliest(kept@, self.stop@.stop_strings, 0);
                        }
                        kept.truncate(i);
                    },
                    None => {},
                }
                self.text = kept;
                self.state = SequenceState::Finished(StopReason::StopString);
            },
            Some(other) => {
                self.text = text;
                self.state = SequenceState::Finished(other);
            },
            None => {
                self.text = text;
            },
        }
        reason
    }

    /// Finishes an unfinished sequence because the model failed on it.
    pub fn fail(&mut self)
        ensures
            final(self)@ == old(self)@.step(SequenceEvent::Fail),
    {
        match self.state {
            SequenceState::Finished(_) => {},
            _ => {
                self.state = SequenceState::Finished(StopReason::ModelError);
            },
        }
    }

    /// Finishes an unfinished sequence because nobody receives its
    /// responses any more.
    pub fn cancel(&mut self)
        ensures
            final(self)@ == old(self)@.step(SequenceEvent::Cancel),
    {
        match self.state {
            SequenceState::Finished(_) => {},
            _ => {
                self.state = SequenceState::Finished(StopReason::Canceled);
            },
        }
    }
}

} // verus!
