//! The server side of a completion: turning the incoming request into an
//! engine request, and the engine's messages into answers.

use vstd::prelude::*;
use std::sync::mpsc::{Receiver, Sender};
use crate::openai::{CompletionRequest, Grammar, StopTokens};
use crate::request::{
    Constraint, Request, RequestMessage, RequestType, SamplingParams,
    StopTokens as InternalStopTokens,
};
use crate::response::{CompletionResponse, Response};

verus! {

/// The receiving half of a channel of the standard library.
#[verifier::external_type_specification]
#[verifier::external_body]
#[verifier::reject_recursive_types(T)]
pub struct ExReceiver<T>(Receiver<T>);

/// What a server does with its connection after a poll.
#[derive(Clone, Debug)]
pub enum StreamItem {
    /// Nothing arrived: wait.
    Pending,
    /// Send the message and keep the stream open.
    Event(Response),
    /// Send the message; it is the last one.
    LastEvent(Response),
    /// The stream is over.
    Closed,
}

/// The server side of one streamed request.
pub struct Streamer {
    rx: Receiver<Response>,
    is_done: bool,
}

/// What a streamer makes of a poll that found `arrived`. Once a terminal
/// message went out, every later poll closes the stream.
pub open spec fn poll_item(is_done: bool, arrived: Option<Response>) -> StreamItem {
    if is_done {
        StreamItem::Closed
    } else {
        match arrived {
            None => StreamItem::Pending,
            Some(r) => if r@.is_terminal() {
                StreamItem::LastEvent(r)
            } else {
                StreamItem::Event(r)
            },
        }
    }
}

/// Whether a streamer is done after a poll with the given outcome.
pub open spec fn done_after(is_done: bool, item: StreamItem) -> bool {
    is_done || item is LastEvent
}

/// A stream delivers at most one terminal message: after a poll that saw a
/// terminal message, every poll closes the stream and sends nothing, no
/// matter what arrives.
pub proof fn lemma_stream_ends_once(first: Response, later: Option<Response>)
    requires
        first@.is_terminal(),
    ensures
        poll_item(false, Some(first)) == StreamItem::LastEvent(first),
        poll_item(done_after(false, poll_item(false, Some(first))), later) == StreamItem::Closed,
{
}

/// Looks into a channel with `Receiver::try_recv` and hands back the
/// message, if one is there. An empty channel and a channel whose sender is
/// gone both give nothing. What is in the channel is not for this side to
/// know.
#[verifier::external_body]
fn try_receive(rx: &Receiver<Response>) -> (arrived: Option<Response>) {
    rx.try_recv().ok()
}

impl Streamer {
    /// Whether the stream has sent its last message.
    pub closed spec fn done(&self) -> bool {
        self.is_done
    }

    /// The channel that the stream reads from.
    pub closed spec fn receiver(&self) -> Receiver<Response> {
        self.rx
    }

    /// A streamer that reads from `rx` and has sent nothing yet.
    pub fn new(rx: Receiver<Response>) -> (s: Streamer)
        ensures
            s.receiver() == rx,
            !s.done(),
    {
        Streamer { rx, is_done: false }
    }

    /// Whether the stream has sent its last message.
    pub fn is_done(&self) -> (b: bool)
        ensures
            b == self.done(),
    {
        self.is_done
    }

    /// What to do with a message that arrived, or with none.
    pub fn on_arrival(&mut self, arrived: Option<Response>) -> (item: StreamItem)
        ensures
            item == poll_item(old(self).done(), arrived),
            final(self).done() == done_after(old(self).done(), item),
            final(self).receiver() == old(self).receiver(),
    {
        if self.is_done {
            return StreamItem::Closed;
        }
        match arrived {
            None => StreamItem::Pending,
            Some(r) => {
                if r.is_terminal() {
                    self.is_done = true;
                    StreamItem::LastEvent(r)
                } else {
                    StreamItem::Event(r)
                }
            },
        }
    }

    /// One poll of the stream. Whatever the channel holds: a stream that is
    /// done is closed and stays done, and a stream is done afterwards
    /// exactly if it was before or sends its last message now.
    pub fn poll_next(&mut self) -> (item: StreamItem)
        ensures
            old(self).done() ==> item is Closed,
            !old(self).done() ==> !(item is Closed),
            final(self).done() == done_after(old(self).done(), item),
            final(self).receiver() == old(self).receiver(),
            item matches StreamItem::LastEvent(r) ==> r@.is_terminal(),
            item matches StreamItem::Event(r) ==> !r@.is_terminal(),
    {
        if self.is_done {
            return StreamItem::Closed;
        }
        let arrived = try_receive(&self.rx);
        self.on_arrival(arrived)
    }
}

/// The status of a successful answer.
pub const STATUS_OK: u16 = 200;

/// The status of a request that was rejected.
pub const STATUS_UNPROCESSABLE_ENTITY: u16 = 422;

/// The status of a failure of the model or of the engine.
pub const STATUS_INTERNAL_SERVER_ERROR: u16 = 500;

/// The answer to a completion request.
pub enum CompletionResponder {
    /// A stream of events.
    Sse(Streamer),
    /// The whole answer.
    Json(CompletionResponse),
    /// The model failed; with the answer so far.
    ModelError(String, CompletionResponse),
    /// The engine failed.
    InternalError(String),
    /// The request was rejected.
    ValidationError(String),
}

/// The status that goes with an answer.
pub open spec fn status_of(r: CompletionResponder) -> u16 {
    match r {
        CompletionResponder::Sse(_) => STATUS_OK,
        CompletionResponder::Json(_) => STATUS_OK,
        CompletionResponder::ModelError(_, _) => STATUS_INTERNAL_SERVER_ERROR,
        CompletionResponder::InternalError(_) => STATUS_INTERNAL_SERVER_ERROR,
        CompletionResponder::ValidationError(_) => STATUS_UNPROCESSABLE_ENTITY,
    }
}

/// The answer that the terminal message of a request that was not streamed
/// turns into; an intermediate piece turns into none.
pub open spec fn responder_for(r: Response) -> Option<CompletionResponder> {
    match r {
        Response::InternalError(m) => Some(CompletionResponder::InternalError(m)),
        Response::ValidationError(m) => Some(CompletionResponder::ValidationError(m)),
        Response::ModelError(m, partial) => Some(CompletionResponder::ModelError(m, partial)),
        Response::CompletionModelError(m, partial) => Some(
            CompletionResponder::ModelError(m, partial),
        ),
        Response::Done(answer) => Some(CompletionResponder::Json(answer)),
        Response::CompletionDone(answer) => Some(CompletionResponder::Json(answer)),
        Response::Chunk(_) => None,
        Response::CompletionChunk(_) => None,
    }
}

impl CompletionResponder {
    /// The answer for the terminal message of a request that was not
    /// streamed.
    pub fn from_response(r: Response) -> (responder: Option<CompletionResponder>)
        ensures
            responder == responder_for(r),
            responder is Some <==> r@.is_terminal(),
    {
        match r {
            Response::InternalError(m) => Some(CompletionResponder::InternalError(m)),
            Response::ValidationError(m) => Some(CompletionResponder::ValidationError(m)),
            Response::ModelError(m, partial) => Some(CompletionResponder::ModelError(m, partial)),
            Response::CompletionModelError(m, partial) => Some(
                CompletionResponder::ModelError(m, partial),
            ),
            Response::Done(answer) => Some(CompletionResponder::Json(answer)),
            Response::CompletionDone(answer) => Some(CompletionResponder::Json(answer)),
            Response::Chunk(_) => None,
            Response::CompletionChunk(_) => None,
        }
    }

    /// The status that goes with the answer: success for a stream and for a
    /// whole answer, "unprocessable entity" for a rejected request,
    /// "internal server error" for a failure of the model or of the engine.
    pub fn status(&self) -> (code: u16)
        ensures
            code == status_of(*self),
    {
        match self {
            CompletionResponder::Sse(_) => STATUS_OK,
            CompletionResponder::Json(_) => STATUS_OK,
            CompletionResponder::ModelError(_, _) => STATUS_INTERNAL_SERVER_ERROR,
            CompletionResponder::InternalError(_) => STATUS_INTERNAL_SERVER_ERROR,
            CompletionResponder::ValidationError(_) => STATUS_UNPROCESSABLE_ENTITY,
        }
    }
}

/// The body of an error answer.
#[derive(Clone, Debug)]
pub struct JsonError {
    pub message: String,
}

impl JsonError {
    pub fn new(message: String) -> (e: JsonError)
        ensures
            e.message == message,
    {
        JsonError { message }
    }
}

/// The body of the answer to a request on which the model failed.
#[derive(Clone, Debug)]
pub struct JsonModelError {
    pub message: String,
    pub partial_response: CompletionResponse,
}

impl JsonModelError {
    pub fn new(message: String, partial_response: CompletionResponse) -> (e: JsonModelError)
        ensures
            e.message == message,
            e.partial_response == partial_response,
    {
        JsonModelError { message, partial_response }
    }
}

/// Whether `stop_toks` says what `stop_seqs` says: a single stop string or
/// token is a list of one.
pub open spec fn same_stops(stop_seqs: Option<StopTokens>, stop_toks: Option<InternalStopTokens>) -> bool {
    match stop_seqs {
        None => stop_toks is None,
        Some(StopTokens::Multi(m)) => stop_toks matches Some(InternalStopTokens::Seqs(s)) && s == m,
        Some(StopTokens::Single(x)) => stop_toks matches Some(InternalStopTokens::Seqs(s)) && s@
            == seq![x],
        Some(StopTokens::MultiId(m)) => stop_toks matches Some(InternalStopTokens::Ids(s)) && s == m,
        Some(StopTokens::SingleId(x)) => stop_toks matches Some(InternalStopTokens::Ids(s)) && s@
            == seq![x],
    }
}

/// The constraint that a grammar stands for.
pub open spec fn constraint_for(grammar: Option<Grammar>) -> Constraint {
    match grammar {
        Some(Grammar::Yacc(y)) => Constraint::Yacc(y),
        Some(Grammar::Regex(r)) => Constraint::Regex(r),
        None => Constraint::Unconstrained,
    }
}

/// The engine request for a completion request: the prompt as it is, the
/// sampling parameters taken over, one log-probability per token unless the
/// request asks for more, log-probabilities returned only if asked for, no
/// streaming unless asked for, and the responses sent to `tx`.
pub fn parse_request(oairequest: CompletionRequest, id: usize, tx: Sender<Response>) -> (request:
    Request)
    ensures
        request.id == id,
        request.messages == RequestMessage::Completion(oairequest.prompt),
        request.sampling_params.temperature == oairequest.temperature,
        request.sampling_params.top_k == oairequest.top_k,
        request.sampling_params.top_p == oairequest.top_p,
        request.sampling_params.top_n_logprobs == match oairequest.logprobs {
            Some(n) => n,
            None => 1,
        },
        request.sampling_params.frequency_penalty == oairequest.frequency_penalty,
        request.sampling_params.presence_penalty == oairequest.presence_penalty,
        request.sampling_params.max_len == oairequest.max_tokens,
        same_stops(oairequest.stop_seqs, request.sampling_params.stop_toks),
        request.sampling_params.logits_bias == oairequest.logit_bias,
        request.sampling_params.n_choices == oairequest.n_choices,
        request.response == tx,
        request.return_logprobs == oairequest.logprobs is Some,
        request.is_streaming == (oairequest.stream == Some(true)),
        request.constraint == constraint_for(oairequest.grammar),
        request.request_type == RequestType::Completion,
{
    let stop_toks = match oairequest.stop_seqs {
        Some(StopTokens::Multi(m)) => Some(InternalStopTokens::Seqs(m)),
        Some(StopTokens::Single(s)) => {
            let mut seqs: Vec<String> = Vec::new();
            seqs.push(s);
            Some(InternalStopTokens::Seqs(seqs))
        },
        Some(StopTokens::MultiId(m)) => Some(InternalStopTokens::Ids(m)),
        Some(StopTokens::SingleId(s)) => {
            let mut ids: Vec<u32> = Vec::new();
            ids.push(s);
            Some(InternalStopTokens::Ids(ids))
        },
        None => None,
    };
    let top_n_logprobs = match oairequest.logprobs {
        Some(n) => n,
        None => 1,
    };
    let is_streaming = match oairequest.stream {
        Some(b) => b,
        None => false,
    };
    Request {
        id,
        messages: RequestMessage::Completion(oairequest.prompt),
        sampling_params: SamplingParams {
            temperature: oairequest.temperature,
            top_k: oairequest.top_k,
            top_p: oairequest.top_p,
            top_n_logprobs,
            frequency_penalty: oairequest.frequency_penalty,
            presence_penalty: oairequest.presence_penalty,
            max_len: oairequest.max_tokens,
            stop_toks,
            logits_bias: oairequest.logit_bias,
            n_choices: oairequest.n_choices,
        },
        response: tx,
        return_logprobs: oairequest.logprobs.is_some(),
        is_streaming,
        constraint: match oairequest.grammar {
            Some(Grammar::Yacc(yacc)) => Constraint::Yacc(yacc),
            Some(Grammar::Regex(regex)) => Constraint::Regex(regex),
            None => Constraint::Unconstrained,
        },
        request_type: RequestType::Completion,
    }
}

} // verus!
