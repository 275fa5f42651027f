//! What a sequence sends to its producer when something happens to it.
//!
//! A streaming sequence gets a chunk for every token that does not end it.
//! Every sequence gets one terminal message when it ends: the whole answer,
//! or an error with the answer so far. A sequence whose receiver is gone is
//! canceled on the first message that cannot be handed over, and is sent
//! nothing after that.

use vstd::prelude::*;
use vstd::slice::slice_to_vec;
use crate::request::RequestType;
use crate::response::{
    ChunkResponse, ChunkView, CompletionResponse, CompletionView, Response, ResponseView, Usage,
};
use crate::sequence::{
    lemma_step_is_monotonic, lemma_stop_precedence, Sequence, SequenceEvent, SequenceState,
    SequenceView, StopReason,
};

verus! {

/// What became of a message.
#[derive(Clone, Copy, Debug, PartialEq, Eq, Structural)]
pub enum Emission {
    /// Nothing was due.
    Nothing,
    /// A message was handed to the receiver.
    Delivered { terminal: bool },
    /// A message was due, but the receiver is gone.
    Dropped { terminal: bool },
}

/// The answer of a sequence as it stands, with the given reason.
pub open spec fn completion_view(s: SequenceView, reason: StopReason) -> CompletionView {
    CompletionView {
        request_id: s.id,
        full_text: s.text,
        tokens: s.completion(),
        stop_reason: reason,
        usage: Usage {
            prompt_tokens: s.prompt_len as usize,
            completion_tokens: s.generated() as usize,
            total_tokens: s.tokens.len() as usize,
        },
    }
}

/// The message that is due for a sequence as it is after a token reached
/// it, given whether it was running before and how many bytes of text it
/// had reported: nothing if it was not running; the whole answer if the
/// token ended it; a chunk with the new text and the token if it goes on and
/// streams; nothing if it goes on and does not stream.
pub open spec fn message_after_token(
    was_running: bool,
    seen: nat,
    after: SequenceView,
    token: u32,
) -> Option<ResponseView> {
    if !was_running {
        None
    } else {
        match after.state {
            SequenceState::Finished(reason) => Some(
                match after.request_type {
                    RequestType::Chat => ResponseView::Done(completion_view(after, reason)),
                    RequestType::Completion => ResponseView::CompletionDone(
                        completion_view(after, reason),
                    ),
                },
            ),
            _ => if after.is_streaming {
                let chunk = ChunkView {
                    request_id: after.id,
                    delta_text: if seen <= after.text.len() {
                        after.text.skip(seen as int)
                    } else {
                        Seq::empty()
                    },
                    delta_tokens: seq![token],
                };
                Some(
                    match after.request_type {
                        RequestType::Chat => ResponseView::Chunk(chunk),
                        RequestType::Completion => ResponseView::CompletionChunk(chunk),
                    },
                )
            } else {
                None
            },
        }
    }
}

/// The message that is due after a token reached a sequence.
pub open spec fn token_response(before: SequenceView, token: u32, text: Seq<u8>) -> Option<
    ResponseView,
> {
    message_after_token(
        before.state is Running,
        before.text.len(),
        before.step(SequenceEvent::Token { token, text }),
        token,
    )
}

/// The error message for a sequence as it is after the model failed on it,
/// with the answer so far.
pub open spec fn message_after_failure(after: SequenceView, message: Seq<char>) -> ResponseView {
    let partial = completion_view(after, StopReason::ModelError);
    match after.request_type {
        RequestType::Chat => ResponseView::ModelError(message, partial),
        RequestType::Completion => ResponseView::CompletionModelError(message, partial),
    }
}

/// The message that is due after the model failed on a sequence: nothing if
/// the sequence was finished already, else the error with the answer so far.
pub open spec fn failure_response(before: SequenceView, message: Seq<char>) -> Option<
    ResponseView,
> {
    if before.state is Finished {
        None
    } else {
        Some(message_after_failure(before.step(SequenceEvent::Fail), message))
    }
}

/// The message that is due after the engine failed for good: the error for
/// a running sequence, nothing for any other.
pub open spec fn fatal_response(before: SequenceView, message: Seq<char>) -> Option<ResponseView> {
    if before.state is Running {
        Some(ResponseView::InternalError(message))
    } else {
        None
    }
}

/// What became of a message that was due or not, and was taken or not.
pub open spec fn emission_of(due: Option<ResponseView>, delivered: bool) -> Emission {
    match due {
        None => Emission::Nothing,
        Some(r) => if delivered {
            Emission::Delivered { terminal: r.is_terminal() }
        } else {
            Emission::Dropped { terminal: r.is_terminal() }
        },
    }
}

/// A sequence after an event and the attempt to send what was due: as after
/// the event, and canceled if the message was not taken.
pub open spec fn settled(
    before: SequenceView,
    event: SequenceEvent,
    emission: Emission,
) -> SequenceView {
    if emission is Dropped {
        before.step(event).step(SequenceEvent::Cancel)
    } else {
        before.step(event)
    }
}

/// A terminal message is due exactly when the event ends the sequence: a
/// token gives a terminal message if and only if the sequence was running
/// and is finished by it, and a failure gives one if and only if the
/// sequence was not finished before.
pub proof fn lemma_terminal_when_finishing(
    before: SequenceView,
    token: u32,
    text: Seq<u8>,
    message: Seq<char>,
)
    ensures
        (token_response(before, token, text) matches Some(r) && r.is_terminal()) <==> (
        !(before.state is Finished) && before.step(SequenceEvent::Token { token, text }).state
            is Finished),
        (failure_response(before, message) matches Some(r) && r.is_terminal()) <==> (!(
        before.state is Finished) && before.step(SequenceEvent::Fail).state is Finished),
        before.state is Finished ==> token_response(before, token, text) is None
            && failure_response(before, message) is None && fatal_response(before, message)
            is None,
{
}

/// The message that is due when an event reaches a sequence; a failure is
/// told with `message`. A start and a cancellation are told to nobody.
pub open spec fn due(before: SequenceView, event: SequenceEvent, message: Seq<char>) -> Option<
    ResponseView,
> {
    match event {
        SequenceEvent::Start => None,
        SequenceEvent::Token { token, text } => token_response(before, token, text),
        SequenceEvent::Fail => failure_response(before, message),
        SequenceEvent::Cancel => None,
    }
}

/// Number of terminal messages that are due along a run of events.
pub open spec fn terminal_messages(
    s: SequenceView,
    events: Seq<SequenceEvent>,
    message: Seq<char>,
) -> nat
    decreases events.len(),
{
    if events.len() == 0 {
        0
    } else {
        let here: nat = if due(s.run(events.drop_last()), events.last(), message) matches Some(r)
            && r.is_terminal() {
            1
        } else {
            0
        };
        terminal_messages(s, events.drop_last(), message) + here
    }
}

/// Single termination. Along any run of events, a sequence that starts out
/// unfinished is due at most one terminal message, and exactly one if and
/// only if it ends for another reason than a cancellation. A canceled
/// sequence is due none: nobody is there to receive it.
pub proof fn lemma_one_terminal_message(
    s: SequenceView,
    events: Seq<SequenceEvent>,
    message: Seq<char>,
)
    requires
        !(s.state is Finished),
    ensures
        terminal_messages(s, events, message) <= 1,
        terminal_messages(s, events, message) == 1 <==> (s.run(events).state matches SequenceState::Finished(
            reason,
        ) && reason != StopReason::Canceled),
    decreases events.len(),
{
    if events.len() > 0 {
        let before = s.run(events.drop_last());
        lemma_one_terminal_message(s, events.drop_last(), message);
        lemma_step_is_monotonic(before, events.last());
        match events.last() {
            SequenceEvent::Token { token, text } => {
                lemma_terminal_when_finishing(before, token, text, message);
                lemma_stop_precedence(
                    before.stop,
                    token,
                    text,
                    before.generated() + 1,
                    before.tokens.len() + 1,
                    before.max_seq_len as nat,
                );
            },
            _ => {
                lemma_terminal_when_finishing(before, 0, Seq::empty(), message);
            },
        }
    }
}

/// A copy of the generated text of a sequence.
fn text_of(seq: &Sequence) -> (t: Vec<u8>)
    ensures
        t@ == seq@.text,
{
    slice_to_vec(seq.text().as_slice())
}

/// The answer of a sequence as it stands, with the given reason.
pub fn completion_response(seq: &Sequence, reason: StopReason) -> (r: CompletionResponse)
    ensures
        r@ == completion_view(seq@, reason),
{
    CompletionResponse {
        request_id: seq.id(),
        full_text: text_of(seq),
        tokens: seq.completion(),
        stop_reason: reason,
        usage: Usage {
            prompt_tokens: seq.prompt_len(),
            completion_tokens: seq.generated_len(),
            total_tokens: seq.len(),
        },
    }
}

/// The message that is due for a sequence after a token reached it;
/// `was_running` tells whether it was running before, and `seen` how many
/// bytes of text it had reported before.
pub fn token_message(seq: &Sequence, was_running: bool, seen: usize, token: u32) -> (r: Option<
    Response,
>)
    ensures
        match r {
            Some(response) => message_after_token(was_running, seen as nat, seq@, token) == Some(
                response@,
            ),
            None => message_after_token(was_running, seen as nat, seq@, token) is None,
        },
{
    if !was_running {
        return None;
    }
    match seq.state() {
        SequenceState::Finished(reason) => {
            let answer = completion_response(seq, reason);
            Some(
                match seq.request_type() {
                    RequestType::Chat => Response::Done(answer),
                    RequestType::Completion => Response::CompletionDone(answer),
                },
            )
        },
        _ => {
            if !seq.is_streaming() {
                return None;
            }
            let now = seq.text();
            let mut delta: Vec<u8> = Vec::new();
            let mut i: usize = seen;
            while i < now.len()
                invariant
                    seen <= i <= now.len() || (i == seen && seen > now.len()),
                    seen <= now.len() ==> delta@ == now@.subrange(seen as int, i as int),
                    seen > now.len() ==> delta@ == Seq::<u8>::empty(),
                decreases now.len() - i,
            {
                delta.push(now[i]);
                proof {
                    assert(now@.subrange(seen as int, i + 1) =~= now@.subrange(
                        seen as int,
                        i as int,
                    ).push(now@[i as int]));
                }
                i = i + 1;
            }
            proof {
                if seen <= now.len() {
                    assert(now@.subrange(seen as int, now.len() as int) =~= now@.skip(seen as int));
                }
            }
            let mut delta_tokens: Vec<u32> = Vec::new();
            delta_tokens.push(token);
            let chunk = ChunkResponse { request_id: seq.id(), delta_text: delta, delta_tokens };
            proof {
                assert(chunk@.delta_tokens =~= seq![token]);
            }
            Some(
                match seq.request_type() {
                    RequestType::Chat => Response::Chunk(chunk),
                    RequestType::Completion => Response::CompletionChunk(chunk),
                },
            )
        },
    }
}

/// The error message for a sequence on which the model failed, with the
/// answer so far.
pub fn failure_message(seq: &Sequence, message: String) -> (r: Response)
    ensures
        r@ == message_after_failure(seq@, message@),
{
    let partial = completion_response(seq, StopReason::ModelError);
    match seq.request_type() {
        RequestType::Chat => Response::ModelError(message, partial),
        RequestType::Completion => Response::CompletionModelError(message, partial),
    }
}

/// Sends a message, if one is due, and tells what became of it. A sequence
/// whose receiver is gone is canceled.
pub(crate) fn send_due(seq: &mut Sequence, due: Option<Response>) -> (e: Emission)
    ensures
        e == emission_of(
            match due {
                Some(r) => Some(r@),
                None => None,
            },
            !(e is Dropped),
        ),
        final(seq)@ == if e is Dropped {
            old(seq)@.step(SequenceEvent::Cancel)
        } else {
            old(seq)@
        },
{
    match due {
        None => Emission::Nothing,
        Some(response) => {
            let terminal = response.is_terminal();
            if seq.emit(response) {
                Emission::Delivered { terminal }
            } else {
                Emission::Dropped { terminal }
            }
        },
    }
}

/// Hands a sampled token to a sequence and sends what is due; `text` is the
/// generated text including the token.
pub fn deliver_token(seq: &mut Sequence, token: u32, text: Vec<u8>) -> (e: Emission)
    ensures
        e == emission_of(token_response(old(seq)@, token, text@), !(e is Dropped)),
        final(seq)@ == settled(old(seq)@, SequenceEvent::Token { token, text: text@ }, e),
{
    let was_running = match seq.state() {
        SequenceState::Running => true,
        _ => false,
    };
    let seen = seq.text().len();
    seq.add_token(token, text);
    let due = token_message(seq, was_running, seen, token);
    send_due(seq, due)
}

/// Ends a sequence on which the model failed and sends the error with the
/// answer so far. A sequence that was finished already is left alone.
pub fn deliver_failure(seq: &mut Sequence, message: String) -> (e: Emission)
    ensures
        e == emission_of(failure_response(old(seq)@, message@), !(e is Dropped)),
        final(seq)@ == settled(old(seq)@, SequenceEvent::Fail, e),
{
    if seq.is_finished() {
        return Emission::Nothing;
    }
    seq.fail();
    let due = failure_message(seq, message);
    send_due(seq, Some(due))
}

/// Ends a running sequence because the engine failed for good, and sends
/// the error. A sequence that is not running is left alone.
pub fn deliver_fatal(seq: &mut Sequence, message: String) -> (e: Emission)
    ensures
        e == emission_of(fatal_response(old(seq)@, message@), !(e is Dropped)),
        final(seq)@ == if old(seq)@.state is Running {
            old(seq)@.step(SequenceEvent::Fail)
        } else {
            old(seq)@
        },
{
    match seq.state() {
        SequenceState::Running => {},
        _ => {
            return Emission::Nothing;
        },
    }
    seq.fail();
    send_due(seq, Some(Response::InternalError(message)))
}

} // verus!
