//! The completion request as it arrives at the server.

use vstd::prelude::*;
use std::collections::HashMap;

verus! {

/// What ends generation, as a request spells it: one or several stop
/// strings, or one or several stop tokens.
#[derive(Clone, Debug)]
pub enum StopTokens {
    Multi(Vec<String>),
    Single(String),
    MultiId(Vec<u32>),
    SingleId(u32),
}

/// A grammar that the answer must follow.
#[derive(Clone, Debug)]
pub enum Grammar {
    Regex(String),
    Yacc(String),
}

/// A completion request. Real-valued parameters are held as the bit pattern
/// of their IEEE-754 value: `temperature` and `top_p` in double precision,
/// the penalties and the biases in single precision.
#[derive(Clone, Debug)]
pub struct CompletionRequest {
    pub model: String,
    pub prompt: String,
    pub presence_penalty: Option<u32>,
    pub frequency_penalty: Option<u32>,
    /// For a token id the bias added to its logit.
    pub logit_bias: Option<HashMap<u32, u32>>,
    pub logprobs: Option<usize>,
    pub max_tokens: Option<usize>,
    pub n_choices: usize,
    pub stop_seqs: Option<StopTokens>,
    pub stream: Option<bool>,
    pub temperature: Option<u64>,
    pub top_p: Option<u64>,
    pub top_k: Option<usize>,
    pub grammar: Option<Grammar>,
}

} // verus!
