//! What a producer hands to the engine.

use vstd::prelude::*;
use std::collections::HashMap;
use vstd::utf8::encode_utf8;
use std::sync::mpsc::Sender;
use crate::pipeline::text_bytes;
use crate::response::Response;
use crate::sequence::{StopConditions, StopView};

verus! {

/// The sending half of a channel of the standard library.
#[verifier::external_type_specification]
#[verifier::external_body]
#[verifier::reject_recursive_types(T)]
pub struct ExSender<T>(Sender<T>);

/// Whether a request is a chat or a plain completion.
#[derive(Clone, Copy, Debug, PartialEq, Eq, Structural)]
pub enum RequestType {
    Chat,
    Completion,
}

/// What ends generation besides the end-of-sequence token.
#[derive(Clone, Debug)]
pub enum StopTokens {
    Seqs(Vec<String>),
    Ids(Vec<u32>),
}

/// A grammar that the sampled tokens must follow.
#[derive(Clone, Debug)]
pub enum Constraint {
    Regex(String),
    Yacc(String),
    /// Any token may follow.
    Unconstrained,
}

/// What to generate from: a conversation, each message a map from the names
/// of its fields to their texts, or a prompt.
#[derive(Clone, Debug)]
pub enum RequestMessage {
    Chat(Vec<HashMap<String, String>>),
    Completion(String),
}

/// How to sample. Real-valued parameters are held as the bit pattern of
/// their IEEE-754 value: `temperature` and `top_p` in double precision, the
/// penalties and the biases in single precision.
#[derive(Clone, Debug)]
pub struct SamplingParams {
    pub temperature: Option<u64>,
    pub top_k: Option<usize>,
    pub top_p: Option<u64>,
    pub top_n_logprobs: usize,
    pub frequency_penalty: Option<u32>,
    pub presence_penalty: Option<u32>,
    pub max_len: Option<usize>,
    pub stop_toks: Option<StopTokens>,
    /// For a token id the bias added to its logit.
    pub logits_bias: Option<HashMap<u32, u32>>,
    pub n_choices: usize,
}

/// One request.
pub struct Request {
    pub id: usize,
    pub messages: RequestMessage,
    pub sampling_params: SamplingParams,
    /// Where the responses go.
    pub response: Sender<Response>,
    pub return_logprobs: bool,
    pub is_streaming: bool,
    pub constraint: Constraint,
    pub request_type: RequestType,
}

/// What is wrong with sampling parameters.
#[derive(Clone, Copy, Debug, PartialEq, Eq, Structural)]
pub enum ParamError {
    /// The temperature is negative, infinite or not a number.
    Temperature,
    /// The nucleus mass is not in the range from above zero up to one.
    TopP,
    /// A penalty is infinite or not a number.
    Penalty,
    /// No choice is asked for.
    Choices,
}

/// The bit patterns of zero in double precision: plus zero and minus zero.
pub open spec fn is_zero_bits(bits: u64) -> bool {
    bits == 0 || bits == 0x8000_0000_0000_0000
}

/// The bit patterns of the doubles that can be a temperature: zero and the
/// positive numbers.
pub open spec fn is_temperature_bits(bits: u64) -> bool {
    bits <= 0x7FEF_FFFF_FFFF_FFFF || bits == 0x8000_0000_0000_0000
}

/// The bit patterns of the doubles above zero and up to one.
pub open spec fn is_probability_bits(bits: u64) -> bool {
    0 < bits <= 0x3FF0_0000_0000_0000
}

/// The bit patterns of the single-precision numbers: everything but the
/// infinities and what is not a number.
pub open spec fn is_finite_bits(bits: u32) -> bool {
    bits < 0x7F80_0000 || 0x8000_0000 <= bits < 0xFF80_0000
}

/// What is wrong with sampling parameters, if anything: the first of a bad
/// temperature, a bad nucleus mass, a bad penalty and no choice.
pub open spec fn param_error(p: SamplingParams) -> Option<ParamError> {
    if p.temperature matches Some(t) && !is_temperature_bits(t) {
        Some(ParamError::Temperature)
    } else if p.top_p matches Some(t) && !is_probability_bits(t) {
        Some(ParamError::TopP)
    } else if (p.frequency_penalty matches Some(f) && !is_finite_bits(f)) || (
    p.presence_penalty matches Some(f) && !is_finite_bits(f)) {
        Some(ParamError::Penalty)
    } else if p.n_choices == 0 {
        Some(ParamError::Choices)
    } else {
        None
    }
}

/// The stop strings among the stop tokens, as bytes.
pub open spec fn stop_strings_of(stop_toks: Option<StopTokens>) -> Seq<Seq<u8>> {
    match stop_toks {
        Some(StopTokens::Seqs(seqs)) => Seq::new(seqs@.len(), |i: int| encode_utf8(seqs@[i]@)),
        _ => Seq::empty(),
    }
}

/// The stop token ids among the stop tokens.
pub open spec fn stop_ids_of(stop_toks: Option<StopTokens>) -> Seq<u32> {
    match stop_toks {
        Some(StopTokens::Ids(ids)) => ids@,
        _ => Seq::empty(),
    }
}

impl SamplingParams {
    /// Checks the parameters: the temperature is zero or a positive number,
    /// the nucleus mass is above zero and at most one, the penalties are
    /// numbers, and at least one choice is asked for.
    pub fn validate(&self) -> (r: Result<(), ParamError>)
        ensures
            match param_error(*self) {
                Some(e) => r == Err::<(), ParamError>(e),
                None => r is Ok,
            },
    {
        match self.temperature {
            Some(t) => {
                if !(t <= 0x7FEF_FFFF_FFFF_FFFF || t == 0x8000_0000_0000_0000) {
                    return Err(ParamError::Temperature);
                }
            },
            None => {},
        }
        match self.top_p {
            Some(t) => {
                if !(0 < t && t <= 0x3FF0_0000_0000_0000) {
                    return Err(ParamError::TopP);
                }
            },
            None => {},
        }
        match self.frequency_penalty {
            Some(f) => {
                if !(f < 0x7F80_0000 || (0x8000_0000 <= f && f < 0xFF80_0000)) {
                    return Err(ParamError::Penalty);
                }
            },
            None => {},
        }
        match self.presence_penalty {
            Some(f) => {
                if !(f < 0x7F80_0000 || (0x8000_0000 <= f && f < 0xFF80_0000)) {
                    return Err(ParamError::Penalty);
                }
            },
            None => {},
        }
        if self.n_choices == 0 {
            return Err(ParamError::Choices);
        }
        Ok(())
    }

    /// Whether sampling is greedy: the temperature is zero.
    pub fn is_greedy(&self) -> (b: bool)
        ensures
            b == (self.temperature matches Some(t) && is_zero_bits(t)),
    {
        match self.temperature {
            Some(t) => t == 0 || t == 0x8000_0000_0000_0000,
            None => false,
        }
    }

    /// The stop conditions of a sequence sampled with these parameters in a
    /// model whose end-of-sequence token is `eos_token`.
    pub fn stop_conditions(&self, eos_token: u32) -> (stop: StopConditions)
        ensures
            stop@ == (StopView {
                eos_token,
                stop_token_ids: stop_ids_of(self.stop_toks),
                stop_strings: stop_strings_of(self.stop_toks),
                max_new_tokens: self.max_len,
            }),
    {
        let mut stop_token_ids: Vec<u32> = Vec::new();
        let mut stop_strings: Vec<Vec<u8>> = Vec::new();
        match &self.stop_toks {
            Some(StopTokens::Ids(ids)) => {
                let mut i: usize = 0;
                while i < ids.len()
                    invariant
                        i <= ids.len(),
                        stop_token_ids@ == ids@.take(i as int),
                    decreases ids.len() - i,
                {
                    stop_token_ids.push(ids[i]);
                    proof {
                        assert(ids@.take(i + 1) =~= ids@.take(i as int).push(ids@[i as int]));
                    }
                    i = i + 1;
                }
                proof {
                    assert(ids@.take(ids.len() as int) =~= ids@);
                }
            },
            Some(StopTokens::Seqs(seqs)) => {
                let mut i: usize = 0;
                while i < seqs.len()
                    invariant
                        i <= seqs.len(),
                        stop_strings.len() == i,
                        forall|k: int|
                            0 <= k < i ==> (#[trigger] stop_strings[k])@ == encode_utf8(seqs@[k]@),
                    decreases seqs.len() - i,
                {
                    stop_strings.push(text_bytes(seqs[i].as_str()));
                    i = i + 1;
                }
            },
            None => {},
        }
        let stop = StopConditions {
            eos_token,
            stop_token_ids,
            stop_strings,
            max_new_tokens: self.max_len,
        };
        proof {
            assert(stop@.stop_strings =~= stop_strings_of(self.stop_toks)) by {
                assert forall|k: int| 0 <= k < stop.stop_strings.len() implies stop.stop_strings.deep_view()[k]
                    == stop_strings_of(self.stop_toks)[k] by {
                    assert(stop.stop_strings.deep_view()[k] == stop.stop_strings[k]@);
                }
            }
            assert(stop@.stop_token_ids =~= stop_ids_of(self.stop_toks));
        }
        stop
    }
}

/// Hands a response to a sink with `Sender::send`. Tells whether the
/// receiving half took it: `false` when the receiver is gone. Which of the
/// two happens is not for this side to know.
#[verifier::external_body]
pub(crate) fn send_response(sink: &Sender<Response>, response: Response) -> (delivered: bool) {
    sink.send(response).is_ok()
}

} // verus!
