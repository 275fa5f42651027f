//! Request engine core for serving autoregressive transformer language
//! models of the Llama family: the sequences and their lifecycle, the
//! scheduler, the engine that answers the producers, and the layout of a
//! forward pass over several devices with per-layer key/value caches.

pub mod attention;
pub mod chunking;
pub mod completions;
pub mod config;
pub mod delivery;
pub mod engine;
pub mod forward;
pub mod hub;
pub mod inputs;
pub mod kv_cache;
pub mod llama;
pub mod openai;
pub mod pipeline;
pub mod request;
pub mod response;
pub mod sampling;
pub mod scheduler;
pub mod sequence;
pub mod text;

use vstd::prelude::*;
use std::sync::mpsc::Sender;

pub use crate::pipeline::TokenSource;
pub use crate::request::{Constraint, Request, RequestType, SamplingParams, StopTokens};
pub use crate::response::{CompletionResponse, Response};
pub use crate::scheduler::SchedulerMethod;
pub use crate::sequence::StopReason;

verus! {

/// The producers' handle on a running engine.
pub struct MistralRs {
    sender: Sender<Request>,
    log: bool,
}

/// Another handle on the same channel, made with `Sender::clone`. Nothing
/// is claimed about it.
#[verifier::external_body]
fn clone_sender(sender: &Sender<Request>) -> (s: Sender<Request>) {
    sender.clone()
}

impl MistralRs {
    /// Whether requests and responses are logged.
    pub closed spec fn logs(&self) -> bool {
        self.log
    }

    /// The sending half of the channel on which the engine takes requests.
    pub closed spec fn channel(&self) -> Sender<Request> {
        self.sender
    }

    /// A handle on the engine that reads from the receiving half that
    /// belongs to `sender`.
    pub fn new(sender: Sender<Request>, log: bool) -> (this: MistralRs)
        ensures
            this.channel() == sender,
            this.logs() == log,
    {
        MistralRs { sender, log }
    }

    /// A sender to submit requests with.
    pub fn get_sender(&self) -> (sender: Sender<Request>) {
        clone_sender(&self.sender)
    }

    /// Whether requests and responses are logged.
    pub fn is_logging(&self) -> (b: bool)
        ensures
            b == self.logs(),
    {
        self.log
    }
}

} // verus!
