//! What the engine sends back to the producer of a request.

use vstd::prelude::*;
use crate::sequence::StopReason;

verus! {

/// Token counts of a request.
#[derive(Clone, Copy, Debug, PartialEq, Eq, Structural)]
pub struct Usage {
    pub prompt_tokens: usize,
    pub completion_tokens: usize,
    pub total_tokens: usize,
}

/// An intermediate piece of a streamed answer.
#[derive(Clone, Debug)]
pub struct ChunkResponse {
    pub request_id: usize,
    /// The bytes of text added since the last piece.
    pub delta_text: Vec<u8>,
    /// The tokens added since the last piece.
    pub delta_tokens: Vec<u32>,
}

/// A whole answer, or as much of it as there is.
#[derive(Clone, Debug)]
pub struct CompletionResponse {
    pub request_id: usize,
    /// The generated text, cut before the stop string if one ended it.
    pub full_text: Vec<u8>,
    /// The generated tokens.
    pub tokens: Vec<u32>,
    pub stop_reason: StopReason,
    pub usage: Usage,
}

/// A message from the engine to the producer of a request.
#[derive(Clone, Debug)]
pub enum Response {
    /// A fatal engine error.
    InternalError(String),
    /// The request was rejected before it ran.
    ValidationError(String),
    /// The model failed on a chat request; with the answer so far.
    ModelError(String, CompletionResponse),
    /// A piece of a streamed chat answer.
    Chunk(ChunkResponse),
    /// The end of a chat answer.
    Done(CompletionResponse),
    /// The model failed on a completion request; with the answer so far.
    CompletionModelError(String, CompletionResponse),
    /// A piece of a streamed completion.
    CompletionChunk(ChunkResponse),
    /// The end of a completion.
    CompletionDone(CompletionResponse),
}

/// A piece of a streamed answer as plain values.
pub struct ChunkView {
    pub request_id: usize,
    pub delta_text: Seq<u8>,
    pub delta_tokens: Seq<u32>,
}

/// An answer as plain values.
pub struct CompletionView {
    pub request_id: usize,
    pub full_text: Seq<u8>,
    pub tokens: Seq<u32>,
    pub stop_reason: StopReason,
    pub usage: Usage,
}

/// A message as plain values.
pub enum ResponseView {
    InternalError(Seq<char>),
    ValidationError(Seq<char>),
    ModelError(Seq<char>, CompletionView),
    Chunk(ChunkView),
    Done(CompletionView),
    CompletionModelError(Seq<char>, CompletionView),
    CompletionChunk(ChunkView),
    CompletionDone(CompletionView),
}

impl ChunkResponse {
    pub open spec fn view(&self) -> ChunkView {
        ChunkView {
            request_id: self.request_id,
            delta_text: self.delta_text@,
            delta_tokens: self.delta_tokens@,
        }
    }
}

impl CompletionResponse {
    pub open spec fn view(&self) -> CompletionView {
        CompletionView {
            request_id: self.request_id,
            full_text: self.full_text@,
            tokens: self.tokens@,
            stop_reason: self.stop_reason,
            usage: self.usage,
        }
    }
}

impl ResponseView {
    /// Whether the message is the last one of its request.
    pub open spec fn is_terminal(self) -> bool {
        !(self is Chunk || self is CompletionChunk)
    }
}

impl Response {
    pub open spec fn view(&self) -> ResponseView {
        match *self {
            Response::InternalError(m) => ResponseView::InternalError(m@),
            Response::ValidationError(m) => ResponseView::ValidationError(m@),
            Response::ModelError(m, c) => ResponseView::ModelError(m@, c@),
            Response::Chunk(c) => ResponseView::Chunk(c@),
            Response::Done(c) => ResponseView::Done(c@),
            Response::CompletionModelError(m, c) => ResponseView::CompletionModelError(m@, c@),
            Response::CompletionChunk(c) => ResponseView::CompletionChunk(c@),
            Response::CompletionDone(c) => ResponseView::CompletionDone(c@),
        }
    }

    /// Whether the message is the last one of its request: everything but
    /// an intermediate piece.
    pub fn is_terminal(&self) -> (b: bool)
        ensures
            b == self@.is_terminal(),
    {
        match self {
            Response::Chunk(_) => false,
            Response::CompletionChunk(_) => false,
            _ => true,
        }
    }
}

} // verus!
