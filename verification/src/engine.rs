//! The request engine: admits requests, hands out forward passes, takes in
//! what the model and the sampler produced, and answers the producers.
//!
//! The engine is the only one to change sequences. It is driven from
//! outside: whoever runs the tokenizer and the model hands in the tokens of
//! each prompt, asks for the next pass, runs it, and reports each sampled
//! token with the text generated so far, or the failure, back.

use vstd::prelude::*;
use crate::delivery::{emission_of, failure_response, settled, token_response, Emission};
use crate::inputs::{
    decode_context_lens, decode_offsets, decode_rows, get_completion_input, get_prompt_input,
    prompt_context_lens, prompt_offsets, prompt_rows, ModelInputs,
};
use crate::pipeline::PipelineError;
use crate::request::{
    param_error, send_response, stop_ids_of, stop_strings_of, ParamError, Request,
};
use crate::response::Response;
use crate::scheduler::{
    apply, fifo_position, has_unique_ids, holds_tokens, index_of, is_fifo, kept,
    lemma_ids_stay_unique, lemma_index_of, lemma_queue_stays_fifo, lemma_youngest_joins_last,
    retired, same_places, Scheduler, SchedulerMethod, SchedulerView, StepMode, StepPlan,
};
use crate::sequence::{
    lemma_step_is_monotonic, Sequence, SequenceEvent, SequenceState, SequenceView, StopView,
};

verus! {

/// Why a request was turned away.
#[derive(Clone, Copy, Debug, PartialEq, Eq, Structural)]
pub enum Rejection {
    /// The engine has failed for good and takes no more requests.
    EngineStopped,
    /// The tokenizer could not map the prompt.
    Tokenizer,
    /// The chat template is missing or does not render.
    Template,
    /// The prompt holds no token.
    EmptyPrompt,
    /// The prompt is longer than the model's maximal sequence length.
    PromptTooLong,
    /// A request with this id is in flight.
    DuplicateId,
    /// The sampling parameters are not usable.
    InvalidParams(ParamError),
}

/// What became of a submitted request.
#[derive(Clone, Copy, Debug, PartialEq, Eq, Structural)]
pub enum Admission {
    Admitted,
    Rejected(Rejection),
}

/// What an engine holds.
pub struct EngineView {
    pub scheduler: SchedulerView,
    pub eos_token: u32,
    pub max_seq_len: usize,
    pub no_kv_cache: bool,
    /// The creation timestamp of the next sequence.
    pub next_timestamp: u64,
    /// Whether the engine has failed for good.
    pub poisoned: bool,
}

/// The rejection that a text-side error stands for.
pub open spec fn rejection_for(e: PipelineError) -> Rejection {
    match e {
        PipelineError::Tokenizer(_) => Rejection::Tokenizer,
        PipelineError::NoChatTemplate => Rejection::Template,
        PipelineError::Template(_) => Rejection::Template,
    }
}

/// The outcome of turning a prompt into tokens, as a plain value.
pub open spec fn prompt_view(prompt: Result<Vec<u32>, PipelineError>) -> Result<
    Seq<u32>,
    PipelineError,
> {
    match prompt {
        Ok(tokens) => Ok(tokens@),
        Err(e) => Err(e),
    }
}

/// The reason, if any, to turn a request away: a stopped engine, unusable
/// sampling parameters, a prompt that could not be tokenized, a prompt
/// without tokens, a prompt longer than the maximal sequence length, an id
/// that is in use; in this order.
pub open spec fn rejection_of(
    v: EngineView,
    request: Request,
    prompt: Result<Seq<u32>, PipelineError>,
) -> Option<Rejection> {
    let id = request.id;
    if v.poisoned {
        Some(Rejection::EngineStopped)
    } else if param_error(request.sampling_params) is Some {
        Some(Rejection::InvalidParams(param_error(request.sampling_params)->0))
    } else {
        match prompt {
            Err(e) => Some(rejection_for(e)),
            Ok(tokens) => if tokens.len() == 0 {
                Some(Rejection::EmptyPrompt)
            } else if tokens.len() > v.max_seq_len {
                Some(Rejection::PromptTooLong)
            } else if index_of(v.scheduler.seqs, id) is Some {
                Some(Rejection::DuplicateId)
            } else {
                None
            },
        }
    }
}

/// The sequence that an admitted request becomes.
pub open spec fn admitted_sequence(v: EngineView, request: Request, prompt: Seq<u32>) -> SequenceView {
    SequenceView {
        id: request.id,
        timestamp: v.next_timestamp,
        tokens: prompt,
        prompt_len: prompt.len(),
        text: Seq::empty(),
        state: SequenceState::Waiting,
        stop: StopView {
            eos_token: v.eos_token,
            stop_token_ids: stop_ids_of(request.sampling_params.stop_toks),
            stop_strings: stop_strings_of(request.sampling_params.stop_toks),
            max_new_tokens: request.sampling_params.max_len,
        },
        max_seq_len: v.max_seq_len,
        is_streaming: request.is_streaming,
        return_logprobs: request.return_logprobs,
        request_type: request.request_type,
        params: request.sampling_params,
        constraint: request.constraint,
        sink: request.response,
    }
}

/// The timestamp after `t`; the last one stays.
pub open spec fn next_after(t: u64) -> u64 {
    if t < u64::MAX {
        (t + 1) as u64
    } else {
        t
    }
}

/// The engine after a request was submitted with the given prompt tokens:
/// unchanged if the request is turned away, else with the new sequence
/// waiting at its place in the queue.
pub open spec fn after_take_in(
    v: EngineView,
    request: Request,
    prompt: Result<Seq<u32>, PipelineError>,
) -> EngineView {
    match rejection_of(v, request, prompt) {
        Some(_) => v,
        None => EngineView {
            scheduler: SchedulerView {
                seqs: v.scheduler.seqs.insert(
                    fifo_position(v.scheduler.seqs, v.next_timestamp),
                    admitted_sequence(v, request, prompt->Ok_0),
                ),
                ..v.scheduler
            },
            next_timestamp: next_after(v.next_timestamp),
            ..v
        },
    }
}

/// Whether every sequence of the queue is well formed.
pub open spec fn all_well_formed(seqs: Seq<SequenceView>) -> bool {
    forall|i: int| 0 <= i < seqs.len() ==> (#[trigger] seqs[i]).wf()
}

impl EngineView {
    /// The queue is ordered by timestamp, and no sequence is younger than
    /// the next one will be.
    pub open spec fn in_submission_order(self) -> bool {
        &&& is_fifo(self.scheduler.seqs)
        &&& forall|i: int|
            0 <= i < self.scheduler.seqs.len() ==> (#[trigger] self.scheduler.seqs[i]).timestamp
                <= self.next_timestamp
    }

    /// What holds of every engine: no two sequences have the same id, the
    /// queue is in submission order, and every sequence is well formed.
    pub open spec fn wf(self) -> bool {
        &&& has_unique_ids(self.scheduler.seqs)
        &&& self.in_submission_order()
        &&& all_well_formed(self.scheduler.seqs)
    }

    /// The engine with another queue.
    pub open spec fn with_seqs(self, seqs: Seq<SequenceView>) -> EngineView {
        EngineView { scheduler: SchedulerView { seqs, ..self.scheduler }, ..self }
    }
}

/// Requests are taken in the order in which they are submitted. In an
/// engine whose queue is in submission order, a request that is taken joins
/// the queue behind all others, and the queue is in submission order again.
pub proof fn lemma_taken_in_submission_order(
    v: EngineView,
    request: Request,
    prompt: Result<Seq<u32>, PipelineError>,
)
    requires
        v.in_submission_order(),
    ensures
        after_take_in(v, request, prompt).in_submission_order(),
        rejection_of(v, request, prompt) is None ==> after_take_in(
            v,
            request,
            prompt,
        ).scheduler.seqs == v.scheduler.seqs.push(admitted_sequence(v, request, prompt->Ok_0)),
{
    if rejection_of(v, request, prompt) is None {
        let seqs = v.scheduler.seqs;
        let s = admitted_sequence(v, request, prompt->Ok_0);
        lemma_youngest_joins_last(seqs, v.next_timestamp);
        assert(seqs.insert(seqs.len() as int, s) =~= seqs.push(s));
        let after = after_take_in(v, request, prompt);
        assert forall|i: int, j: int| 0 <= i <= j < after.scheduler.seqs.len() implies after.scheduler.seqs[i].timestamp
            <= after.scheduler.seqs[j].timestamp by {
            if j < seqs.len() {
                assert(after.scheduler.seqs[i] == seqs[i] && after.scheduler.seqs[j] == seqs[j]);
            } else if i < seqs.len() {
                assert(after.scheduler.seqs[i] == seqs[i]);
            }
        }
        assert forall|i: int| 0 <= i < after.scheduler.seqs.len() implies (
        #[trigger] after.scheduler.seqs[i]).timestamp <= after.next_timestamp by {
            if i < seqs.len() {
                assert(after.scheduler.seqs[i] == seqs[i]);
            }
        }
    }
}

/// Nothing but taking a request in changes the order of the queue: an
/// engine that is in submission order is still so after an event reached a
/// sequence, after a pass was handed out, and after the finished sequences
/// retired.
pub proof fn lemma_submission_order_is_kept(v: EngineView, id: usize, event: SequenceEvent)
    requires
        v.in_submission_order(),
    ensures
        v.with_seqs(apply(v.scheduler.seqs, id, event)).in_submission_order(),
        v.with_seqs(v.scheduler.after_next_step().seqs).in_submission_order(),
        v.with_seqs(kept(v.scheduler.seqs)).in_submission_order(),
{
    let seqs = v.scheduler.seqs;
    lemma_queue_stays_fifo(v.scheduler, id, event);
    lemma_index_of(seqs, id);
    let applied = apply(seqs, id, event);
    assert forall|i: int| 0 <= i < applied.len() implies (#[trigger] applied[i]).timestamp
        <= v.next_timestamp by {
        lemma_step_is_monotonic(seqs[i], event);
    }
    let stepped = v.scheduler.after_next_step().seqs;
    assert forall|i: int| 0 <= i < stepped.len() implies (#[trigger] stepped[i]).timestamp
        <= v.next_timestamp by {
        lemma_step_is_monotonic(seqs[i], SequenceEvent::Start);
    }
    let rest = kept(seqs);
    crate::scheduler::lemma_kept_is_part(seqs);
    assert forall|i: int| 0 <= i < rest.len() implies (#[trigger] rest[i]).timestamp
        <= v.next_timestamp by {
        assert(seqs.contains(rest[i]));
        let j = choose|j: int| 0 <= j < seqs.len() && seqs[j] == rest[i];
        assert(seqs[j].timestamp <= v.next_timestamp);
    }
}

/// Taking a request in keeps the engine well formed: after a request was
/// submitted, admitted or not, the ids are still unique, the queue is still
/// in submission order, and every sequence is well formed.
pub proof fn lemma_taking_in_keeps_well_formed(
    v: EngineView,
    request: Request,
    prompt: Result<Seq<u32>, PipelineError>,
)
    requires
        v.wf(),
    ensures
        after_take_in(v, request, prompt).wf(),
{
    let seqs = v.scheduler.seqs;
    lemma_taken_in_submission_order(v, request, prompt);
    if rejection_of(v, request, prompt) is None {
        lemma_index_of(seqs, request.id);
        let s = admitted_sequence(v, request, prompt->Ok_0);
        let after = seqs.push(s);
        assert forall|i: int, j: int| 0 <= i < j < after.len() implies after[i].id
            != after[j].id by {
            assert(after[i] == seqs[i]);
            if j < seqs.len() {
                assert(after[j] == seqs[j]);
            }
        }
        assert(s.wf());
        assert forall|i: int| 0 <= i < after.len() implies (#[trigger] after[i]).wf() by {
            if i < seqs.len() {
                assert(after[i] == seqs[i]);
            }
        }
    }
}

/// Running keeps the engine well formed. A well-formed engine is still so
/// after an event reached a sequence, after a pass was handed out, after
/// the finished sequences retired, and after any change that leaves each id
/// and timestamp at its place and every sequence well formed.
pub proof fn lemma_running_keeps_well_formed(
    v: EngineView,
    id: usize,
    event: SequenceEvent,
    other: Seq<SequenceView>,
)
    requires
        v.wf(),
    ensures
        v.with_seqs(apply(v.scheduler.seqs, id, event)).wf(),
        v.with_seqs(v.scheduler.after_next_step().seqs).wf(),
        v.with_seqs(kept(v.scheduler.seqs)).wf(),
        same_places(v.scheduler.seqs, other) && all_well_formed(other) ==> v.with_seqs(other).wf(),
{
    let seqs = v.scheduler.seqs;
    lemma_submission_order_is_kept(v, id, event);
    lemma_ids_stay_unique(v.scheduler, id, event, other);
    lemma_index_of(seqs, id);
    let applied = apply(seqs, id, event);
    assert forall|i: int| 0 <= i < applied.len() implies (#[trigger] applied[i]).wf() by {
        lemma_step_is_monotonic(seqs[i], event);
    }
    let stepped = v.scheduler.after_next_step().seqs;
    assert forall|i: int| 0 <= i < stepped.len() implies (#[trigger] stepped[i]).wf() by {
        lemma_step_is_monotonic(seqs[i], SequenceEvent::Start);
    }
    let rest = kept(seqs);
    crate::scheduler::lemma_kept_is_part(seqs);
    assert forall|i: int| 0 <= i < rest.len() implies (#[trigger] rest[i]).wf() by {
        assert(seqs.contains(rest[i]));
        let j = choose|j: int| 0 <= j < seqs.len() && seqs[j] == rest[i];
        assert(seqs[j].wf());
    }
    if same_places(seqs, other) {
        assert forall|i: int, j: int| 0 <= i <= j < other.len() implies other[i].timestamp
            <= other[j].timestamp by {
            assert(other[i].timestamp == seqs[i].timestamp && other[j].timestamp
                == seqs[j].timestamp);
        }
        assert forall|i: int| 0 <= i < other.len() implies (#[trigger] other[i]).timestamp
            <= v.next_timestamp by {
            assert(other[i].timestamp == seqs[i].timestamp);
        }
    }
}

proof fn lemma_settled_keeps_place(s: SequenceView)
    ensures
        forall|event: SequenceEvent, e: Emission|
            (#[trigger] settled(s, event, e)).id == s.id && settled(s, event, e).timestamp
                == s.timestamp && (s.wf() ==> settled(s, event, e).wf()),
{
    assert forall|event: SequenceEvent, e: Emission|
        (#[trigger] settled(s, event, e)).id == s.id && settled(s, event, e).timestamp
            == s.timestamp && (s.wf() ==> settled(s, event, e).wf()) by {
        lemma_step_is_monotonic(s, event);
        lemma_step_is_monotonic(s.step(event), SequenceEvent::Cancel);
    }
}

/// The message of a text-side error.
pub open spec fn error_text(e: PipelineError) -> Seq<char> {
    match e {
        PipelineError::Tokenizer(m) => m@,
        PipelineError::NoChatTemplate => "no chat template"@,
        PipelineError::Template(m) => m@,
    }
}

/// The token buffers of the sequences with the given ids.
pub open spec fn buffers(seqs: Seq<SequenceView>, ids: Seq<usize>) -> Seq<Seq<u32>> {
    Seq::new(ids.len(), |k: int| seqs[index_of(seqs, ids[k])->0].tokens)
}

/// The message of a text-side error.
pub fn error_message(e: PipelineError) -> (m: String)
    ensures
        m@ == error_text(e),
{
    match e {
        PipelineError::Tokenizer(m) => m,
        PipelineError::NoChatTemplate => "no chat template".to_owned(),
        PipelineError::Template(m) => m,
    }
}

/// The text that tells a producer why its request was turned away.
pub open spec fn rejection_text(r: Rejection) -> Seq<char> {
    match r {
        Rejection::EngineStopped => "the engine has stopped"@,
        Rejection::Tokenizer => "the prompt could not be tokenized"@,
        Rejection::Template => "the chat template could not be applied"@,
        Rejection::EmptyPrompt => "the prompt holds no token"@,
        Rejection::PromptTooLong => "the prompt is longer than the maximal sequence length"@,
        Rejection::DuplicateId => "a request with this id is in flight"@,
        Rejection::InvalidParams(_) => "the sampling parameters are not usable"@,
    }
}

/// The answer to a request that is turned away: an internal error when the
/// engine has stopped, a validation error otherwise.
pub fn rejection_response(r: Rejection) -> (response: Response)
    ensures
        response@ == if r is EngineStopped {
            crate::response::ResponseView::InternalError(rejection_text(r))
        } else {
            crate::response::ResponseView::ValidationError(rejection_text(r))
        },
{
    match r {
        Rejection::EngineStopped => Response::InternalError("the engine has stopped".to_owned()),
        Rejection::Tokenizer => Response::ValidationError(
            "the prompt could not be tokenized".to_owned(),
        ),
        Rejection::Template => Response::ValidationError(
            "the chat template could not be applied".to_owned(),
        ),
        Rejection::EmptyPrompt => Response::ValidationError("the prompt holds no token".to_owned()),
        Rejection::PromptTooLong => Response::ValidationError(
            "the prompt is longer than the maximal sequence length".to_owned(),
        ),
        Rejection::DuplicateId => Response::ValidationError(
            "a request with this id is in flight".to_owned(),
        ),
        Rejection::InvalidParams(_) => Response::ValidationError(
            "the sampling parameters are not usable".to_owned(),
        ),
    }
}

/// The engine.
pub struct Engine {
    scheduler: Scheduler,
    eos_token: u32,
    max_seq_len: usize,
    no_kv_cache: bool,
    next_timestamp: u64,
    poisoned: bool,
}

impl Engine {
    pub closed spec fn view(&self) -> EngineView {
        EngineView {
            scheduler: self.scheduler@,
            eos_token: self.eos_token,
            max_seq_len: self.max_seq_len,
            no_kv_cache: self.no_kv_cache,
            next_timestamp: self.next_timestamp,
            poisoned: self.poisoned,
        }
    }

    /// An engine without sequences.
    pub fn new(
        method: SchedulerMethod,
        eos_token: u32,
        max_seq_len: usize,
        no_kv_cache: bool,
    ) -> (e: Engine)
        ensures
            e@ == (EngineView {
                scheduler: SchedulerView {
                    method,
                    seqs: Seq::<SequenceView>::empty(),
                    last_was_prompt: false,
                },
                eos_token,
                max_seq_len,
                no_kv_cache,
                next_timestamp: 0,
                poisoned: false,
            }),
            e@.wf(),
    {
        Engine {
            scheduler: Scheduler::new(method),
            eos_token,
            max_seq_len,
            no_kv_cache,
            next_timestamp: 0,
            poisoned: false,
        }
    }

    /// The end-of-sequence token.
    pub fn eos_tok(&self) -> (t: u32)
        ensures
            t == self@.eos_token,
    {
        self.eos_token
    }

    /// The maximal sequence length.
    pub fn get_max_seq_len(&self) -> (n: usize)
        ensures
            n == self@.max_seq_len,
    {
        self.max_seq_len
    }

    /// Whether the model runs without key/value cache.
    pub fn has_no_kv_cache(&self) -> (b: bool)
        ensures
            b == self@.no_kv_cache,
    {
        self.no_kv_cache
    }

    /// Whether the engine has failed for good.
    pub fn is_poisoned(&self) -> (b: bool)
        ensures
            b == self@.poisoned,
    {
        self.poisoned
    }

    /// The sequences.
    pub fn scheduler(&self) -> (s: &Scheduler)
        ensures
            s@ == self@.scheduler,
    {
        &self.scheduler
    }

    /// Takes a request whose prompt was turned into tokens, or failed to be.
    /// A request that is turned away gets its answer at once and leaves no
    /// trace; an admitted request waits in the queue.
    pub fn take_in(&mut self, request: Request, prompt: Result<Vec<u32>, PipelineError>) -> (a:
        Admission)
        ensures
            a == match rejection_of(old(self)@, request, prompt_view(prompt)) {
                Some(r) => Admission::Rejected(r),
                None => Admission::Admitted,
            },
            final(self)@ == after_take_in(old(self)@, request, prompt_view(prompt)),
            old(self)@.wf() ==> final(self)@.wf(),
    {
        proof {
            if self@.wf() {
                lemma_taking_in_keeps_well_formed(self@, request, prompt_view(prompt));
            }
        }
        let rejection = if self.poisoned {
            Some(Rejection::EngineStopped)
        } else if let Err(e) = request.sampling_params.validate() {
            Some(Rejection::InvalidParams(e))
        } else {
            match &prompt {
                Err(PipelineError::Tokenizer(_)) => Some(Rejection::Tokenizer),
                Err(_) => Some(Rejection::Template),
                Ok(tokens) => {
                    if tokens.len() == 0 {
                        Some(Rejection::EmptyPrompt)
                    } else if tokens.len() > self.max_seq_len {
                        Some(Rejection::PromptTooLong)
                    } else if self.scheduler.find(request.id).is_some() {
                        Some(Rejection::DuplicateId)
                    } else {
                        None
                    }
                },
            }
        };
        match rejection {
            Some(r) => {
                send_response(&request.response, rejection_response(r));
                Admission::Rejected(r)
            },
            None => {
                let tokens = match prompt {
                    Ok(tokens) => tokens,
                    Err(_) => Vec::new(),
                };
                let stop = request.sampling_params.stop_conditions(self.eos_token);
                let seq = Sequence::new(
                    request.id,
                    self.next_timestamp,
                    tokens,
                    stop,
                    self.max_seq_len,
                    request.is_streaming,
                    request.return_logprobs,
                    request.request_type,
                    request.sampling_params,
                    request.constraint,
                    request.response,
                );
                self.scheduler.add(seq);
                if self.next_timestamp < u64::MAX {
                    self.next_timestamp = self.next_timestamp + 1;
                }
                Admission::Admitted
            },
        }
    }

    /// Hands out the next pass, or nothing when no sequence can run or the
    /// engine has stopped. The sequences of a prompt pass are running from
    /// then on.
    pub fn next_step(&mut self) -> (plan: Option<StepPlan>)
        ensures
            old(self)@.poisoned ==> plan is None && final(self)@ == old(self)@,
            !old(self)@.poisoned ==> final(self)@ == (EngineView {
                scheduler: old(self)@.scheduler.after_next_step(),
                ..old(self)@
            }) && match plan {
                Some(p) => old(self)@.scheduler.next_mode() == Some(p.mode) && p.seq_ids@ == old(
                    self,
                )@.scheduler.next_ids() && p.seq_ids.len() > 0,
                None => old(self)@.scheduler.next_mode() is None,
            },
            old(self)@.wf() ==> final(self)@.wf(),
    {
        proof {
            if self@.wf() {
                lemma_running_keeps_well_formed(
                    self@,
                    0,
                    SequenceEvent::Cancel,
                    self@.scheduler.seqs,
                );
            }
        }
        if self.poisoned {
            return None;
        }
        self.scheduler.next_step()
    }

    /// The rows, offsets and context ranges to feed the model with for a
    /// pass: whole buffers, padded, for a prompt pass or when the model runs
    /// without cache; the most recent token of each sequence otherwise.
    /// Nothing when the pass is empty, names a sequence that is not there,
    /// or is to send the most recent token of a sequence without tokens.
    pub fn model_inputs(&self, plan: &StepPlan) -> (r: Option<ModelInputs>)
        ensures
            r is None <==> plan.seq_ids.len() == 0 || (exists|k: int|
                0 <= k < plan.seq_ids.len() && index_of(
                    self@.scheduler.seqs,
                    #[trigger] plan.seq_ids@[k],
                ) is None) || (plan.mode is Decode && !self@.no_kv_cache && exists|k: int|
                0 <= k < plan.seq_ids.len() && (#[trigger] buffers(
                    self@.scheduler.seqs,
                    plan.seq_ids@,
                )[k]).len() == 0),
            r matches Some(inputs) ==> {
                let toks = buffers(self@.scheduler.seqs, plan.seq_ids@);
                if plan.mode is Prompt || self@.no_kv_cache {
                    &&& inputs.rows.deep_view() == prompt_rows(toks)
                    &&& inputs.seqlen_offsets@ == prompt_offsets(toks)
                    &&& inputs.context_lens@ == prompt_context_lens(toks)
                } else {
                    &&& inputs.rows.deep_view() == decode_rows(toks)
                    &&& inputs.seqlen_offsets@ == decode_offsets(toks)
                    &&& inputs.context_lens@ == decode_context_lens(toks)
                }
            },
    {
        if plan.seq_ids.len() == 0 {
            return None;
        }
        let rows = match self.scheduler.token_buffers(&plan.seq_ids) {
            None => {
                return None;
            },
            Some(rows) => rows,
        };
        proof {
            let toks = buffers(self@.scheduler.seqs, plan.seq_ids@);
            assert(rows.deep_view() =~= toks) by {
                assert forall|k: int| 0 <= k < rows.len() implies rows.deep_view()[k] == toks[k] by {
                    assert(holds_tokens(self@.scheduler.seqs, plan.seq_ids@[k], rows@[k]@));
                    assert(rows.deep_view()[k] == rows@[k]@);
                }
            }
            assert forall|k: int| 0 <= k < plan.seq_ids.len() implies index_of(
                self@.scheduler.seqs,
                #[trigger] plan.seq_ids@[k],
            ) is Some by {
                assert(holds_tokens(self@.scheduler.seqs, plan.seq_ids@[k], rows@[k]@));
            }
        }
        let prompt_like = match plan.mode {
            StepMode::Prompt => true,
            StepMode::Decode => self.no_kv_cache,
        };
        if prompt_like {
            return Some(get_prompt_input(&rows));
        }
        let mut k: usize = 0;
        while k < rows.len()
            invariant
                k <= rows.len(),
                rows.len() == plan.seq_ids.len(),
                plan.mode is Decode,
                !self@.no_kv_cache,
                rows.deep_view() == buffers(self@.scheduler.seqs, plan.seq_ids@),
                forall|m: int| 0 <= m < k ==> (#[trigger] rows[m]).len() > 0,
            decreases rows.len() - k,
        {
            if rows[k].len() == 0 {
                proof {
                    assert(rows.deep_view()[k as int] == rows[k as int]@);
                    assert(buffers(self@.scheduler.seqs, plan.seq_ids@)[k as int].len() == 0);
                }
                return None;
            }
            k = k + 1;
        }
        proof {
            assert forall|m: int| 0 <= m < rows.len() implies (#[trigger] buffers(
                self@.scheduler.seqs,
                plan.seq_ids@,
            )[m]).len() > 0 by {
                assert(rows.deep_view()[m] == rows[m]@);
            }
        }
        Some(get_completion_input(&rows, false))
    }

    /// Takes in a sampled token together with the generated text including
    /// it, or the failure to produce that text, and sends what is due: the
    /// token goes to the sequence if the text is there; the sequence ends
    /// with a model error if it is not. Returns nothing when the engine has
    /// stopped or the id is unknown; then nothing changes. No other sequence
    /// is touched.
    pub fn on_token_text(&mut self, id: usize, token: u32, text: Result<Vec<u8>, PipelineError>) -> (r:
        Option<Emission>)
        ensures
            final(self)@ == (EngineView { scheduler: final(self)@.scheduler, ..old(self)@ }),
            final(self)@.scheduler == (SchedulerView {
                seqs: final(self)@.scheduler.seqs,
                ..old(self)@.scheduler
            }),
            old(self)@.poisoned || index_of(old(self)@.scheduler.seqs, id) is None ==> r is None
                && final(self)@ == old(self)@,
            !old(self)@.poisoned ==> match index_of(old(self)@.scheduler.seqs, id) {
                None => true,
                Some(i) => {
                    let before = old(self)@.scheduler.seqs[i];
                    match text {
                        Ok(t) => r matches Some(e) && e == emission_of(
                            token_response(before, token, t@),
                            !(e is Dropped),
                        ) && final(self)@.scheduler.seqs == old(self)@.scheduler.seqs.update(
                            i,
                            settled(before, SequenceEvent::Token { token, text: t@ }, e),
                        ),
                        Err(err) => r matches Some(e) && e == emission_of(
                            failure_response(before, error_text(err)),
                            !(e is Dropped),
                        ) && final(self)@.scheduler.seqs == old(self)@.scheduler.seqs.update(
                            i,
                            settled(before, SequenceEvent::Fail, e),
                        ),
                    }
                },
            },
            old(self)@.wf() ==> final(self)@.wf(),
    {
        if self.poisoned {
            return None;
        }
        let ghost before = self@;
        let r = match text {
            Ok(t) => self.scheduler.deliver_token(id, token, t),
            Err(e) => self.scheduler.deliver_failure(id, error_message(e)),
        };
        proof {
            if before.wf() {
                let seqs = before.scheduler.seqs;
                let after = self@.scheduler.seqs;
                lemma_index_of(seqs, id);
                assert forall|k: int| 0 <= k < after.len() implies (#[trigger] after[k]).wf()
                    && after[k].id == seqs[k].id && after[k].timestamp == seqs[k].timestamp by {
                    lemma_settled_keeps_place(seqs[k]);
                }
                lemma_running_keeps_well_formed(before, id, SequenceEvent::Cancel, after);
            }
        }
        r
    }

    /// The tokens whose text is wanted when `token` was sampled for the
    /// sequence with the given id: what the sequence has generated, followed
    /// by the token. Nothing when the engine has stopped or the id is
    /// unknown.
    pub fn decode_input(&self, id: usize, token: u32) -> (r: Option<Vec<u32>>)
        ensures
            match r {
                Some(tokens) => !self@.poisoned && index_of(self@.scheduler.seqs, id) is Some
                    && tokens@ == self@.scheduler.seqs[index_of(
                    self@.scheduler.seqs,
                    id,
                )->0].completion().push(token),
                None => self@.poisoned || index_of(self@.scheduler.seqs, id) is None,
            },
    {
        if self.poisoned {
            return None;
        }
        match self.scheduler.get(id) {
            None => None,
            Some(seq) => {
                let mut generated = seq.completion();
                generated.push(token);
                Some(generated)
            },
        }
    }

    /// Ends the sequence with the given id because the model failed on it,
    /// and sends the error with the answer so far. Returns nothing when the
    /// engine has stopped or the id is unknown; then nothing changes. No
    /// other sequence is touched.
    pub fn on_model_error(&mut self, id: usize, message: String) -> (r: Option<Emission>)
        ensures
            final(self)@ == (EngineView { scheduler: final(self)@.scheduler, ..old(self)@ }),
            final(self)@.scheduler == (SchedulerView {
                seqs: final(self)@.scheduler.seqs,
                ..old(self)@.scheduler
            }),
            old(self)@.poisoned || index_of(old(self)@.scheduler.seqs, id) is None ==> r is None
                && final(self)@ == old(self)@,
            !old(self)@.poisoned ==> match index_of(old(self)@.scheduler.seqs, id) {
                None => true,
                Some(i) => r matches Some(e) && e == emission_of(
                    failure_response(old(self)@.scheduler.seqs[i], message@),
                    !(e is Dropped),
                ) && final(self)@.scheduler.seqs == old(self)@.scheduler.seqs.update(
                    i,
                    settled(old(self)@.scheduler.seqs[i], SequenceEvent::Fail, e),
                ),
            },
            old(self)@.wf() ==> final(self)@.wf(),
    {
        if self.poisoned {
            return None;
        }
        let ghost before = self@;
        let r = self.scheduler.deliver_failure(id, message);
        proof {
            if before.wf() {
                let seqs = before.scheduler.seqs;
                let after = self@.scheduler.seqs;
                lemma_index_of(seqs, id);
                assert forall|k: int| 0 <= k < after.len() implies (#[trigger] after[k]).wf()
                    && after[k].id == seqs[k].id && after[k].timestamp == seqs[k].timestamp by {
                    lemma_settled_keeps_place(seqs[k]);
                }
                lemma_running_keeps_well_formed(before, id, SequenceEvent::Cancel, after);
            }
        }
        r
    }

    /// Cancels the sequence with the given id because nobody receives its
    /// responses any more. Returns whether the id is known.
    pub fn on_sink_closed(&mut self, id: usize) -> (known: bool)
        ensures
            final(self)@ == (EngineView {
                scheduler: SchedulerView {
                    seqs: crate::scheduler::apply(
                        old(self)@.scheduler.seqs,
                        id,
                        SequenceEvent::Cancel,
                    ),
                    ..old(self)@.scheduler
                },
                ..old(self)@
            }),
            known == index_of(old(self)@.scheduler.seqs, id) is Some,
            old(self)@.wf() ==> final(self)@.wf(),
    {
        proof {
            if self@.wf() {
                lemma_running_keeps_well_formed(
                    self@,
                    id,
                    SequenceEvent::Cancel,
                    self@.scheduler.seqs,
                );
            }
        }
        self.scheduler.cancel(id)
    }

    /// Stops the engine for good: every running sequence ends and is sent
    /// the error; waiting and finished sequences are left alone. Returns the
    /// number of sequences ended. A stopped engine stays as it is.
    pub fn on_fatal(&mut self, message: String) -> (ended: usize)
        ensures
            old(self)@.poisoned ==> ended == 0 && final(self)@ == old(self)@,
            !old(self)@.poisoned ==> ended == old(self)@.scheduler.running() && final(self)@ == (
            EngineView {
                scheduler: SchedulerView {
                    seqs: Seq::new(
                        old(self)@.scheduler.seqs.len(),
                        |i: int|
                            if old(self)@.scheduler.seqs[i].state is Running {
                                old(self)@.scheduler.seqs[i].step(SequenceEvent::Fail)
                            } else {
                                old(self)@.scheduler.seqs[i]
                            },
                    ),
                    ..old(self)@.scheduler
                },
                poisoned: true,
                ..old(self)@
            }),
            old(self)@.wf() ==> final(self)@.wf(),
    {
        if self.poisoned {
            return 0;
        }
        let ghost before = self@;
        let ended = self.scheduler.deliver_fatal(&message);
        self.poisoned = true;
        proof {
            if before.wf() {
                let seqs = before.scheduler.seqs;
                let after = self@.scheduler.seqs;
                assert forall|k: int| 0 <= k < after.len() implies (#[trigger] after[k]).wf()
                    && after[k].id == seqs[k].id && after[k].timestamp == seqs[k].timestamp by {
                    lemma_step_is_monotonic(seqs[k], SequenceEvent::Fail);
                }
                lemma_running_keeps_well_formed(before, 0, SequenceEvent::Cancel, after);
            }
        }
        ended
    }

    /// Takes the finished sequences out of the engine and returns them; with
    /// them go their sinks.
    pub fn retire(&mut self) -> (gone: Vec<Sequence>)
        ensures
            final(self)@ == (EngineView {
                scheduler: SchedulerView {
                    seqs: kept(old(self)@.scheduler.seqs),
                    ..old(self)@.scheduler
                },
                ..old(self)@
            }),
            gone@.len() == retired(old(self)@.scheduler.seqs).len(),
            forall|k: int| 0 <= k < gone@.len() ==> (#[trigger] gone@[k])@ == retired(
                old(self)@.scheduler.seqs,
            )[k],
            old(self)@.wf() ==> final(self)@.wf(),
    {
        proof {
            if self@.wf() {
                lemma_running_keeps_well_formed(
                    self@,
                    0,
                    SequenceEvent::Cancel,
                    self@.scheduler.seqs,
                );
            }
        }
        self.scheduler.retire()
    }
}

} // verus!
