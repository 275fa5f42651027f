use std::sync::mpsc::{channel, Receiver};

use mistralrs_core::delivery::{
    completion_response, deliver_failure, deliver_fatal, deliver_token, failure_message,
    token_message, Emission,
};
use mistralrs_core::request::{Constraint, RequestType, SamplingParams};
use mistralrs_core::response::Response;
use mistralrs_core::sampling::{greedy_pick, keep_top_k, token_counts};
use mistralrs_core::scheduler::{Scheduler, SchedulerMethod, StepMode};
use mistralrs_core::sequence::{Sequence, SequenceState, StopConditions, StopReason};
use mistralrs_core::text::{any_stop_at, find_stop, matches_at};

fn bytes(s: &str) -> Vec<u8> {
    s.as_bytes().to_vec()
}

fn stop(eos: u32, ids: Vec<u32>, strings: Vec<&str>, max_new: Option<usize>) -> StopConditions {
    StopConditions {
        eos_token: eos,
        stop_token_ids: ids,
        stop_strings: strings.into_iter().map(bytes).collect(),
        max_new_tokens: max_new,
    }
}

fn sequence(
    id: usize,
    timestamp: u64,
    prompt: Vec<u32>,
    conditions: StopConditions,
    max_seq_len: usize,
    is_streaming: bool,
) -> (Sequence, Receiver<Response>) {
    let (tx, rx) = channel();
    let seq = Sequence::new(
        id,
        timestamp,
        prompt,
        conditions,
        max_seq_len,
        is_streaming,
        false,
        RequestType::Chat,
        sampling(),
        Constraint::Unconstrained,
        tx,
    );
    (seq, rx)
}

fn sampling() -> SamplingParams {
    SamplingParams {
        temperature: Some(0),
        top_k: Some(3),
        top_p: None,
        top_n_logprobs: 1,
        frequency_penalty: None,
        presence_penalty: None,
        max_len: None,
        stop_toks: None,
        logits_bias: None,
        n_choices: 1,
    }
}

fn plain(id: usize, timestamp: u64, prompt_len: usize) -> Sequence {
    sequence(id, timestamp, vec![1; prompt_len], stop(2, vec![], vec![], None), 1000, false).0
}

#[test]
fn pattern_is_matched_at_a_place() {
    let text = bytes("abcabc");
    assert!(matches_at(&text, &bytes("abc"), 0));
    assert!(matches_at(&text, &bytes("abc"), 3));
    assert!(!matches_at(&text, &bytes("abc"), 1));
    assert!(!matches_at(&text, &bytes("abc"), 4));
    assert!(matches_at(&text, &bytes(""), 6));
    assert!(!matches_at(&text, &bytes(""), 7));
    assert!(!matches_at(&text, &bytes("abcabcd"), 0));
    assert!(!matches_at(&text, &bytes("c"), usize::MAX));
}

#[test]
fn first_stop_string_is_the_earliest_occurrence() {
    let stops = vec![bytes("now"), bytes("END"), bytes("")];
    assert_eq!(find_stop(&bytes("say END now"), &stops), Some(4));
    assert_eq!(find_stop(&bytes("now END"), &stops), Some(0));
    assert_eq!(find_stop(&bytes("nothing here"), &stops), None);
    assert_eq!(find_stop(&bytes("EN"), &stops), None);
    assert_eq!(find_stop(&bytes(""), &stops), None);
    assert_eq!(find_stop(&bytes("END"), &vec![]), None);
    assert!(any_stop_at(&bytes("xEND"), &stops, 1));
    assert!(!any_stop_at(&bytes("xEND"), &stops, 0));
}

#[test]
fn empty_stop_string_never_matches() {
    assert_eq!(find_stop(&bytes("anything"), &vec![bytes("")]), None);
    assert!(!any_stop_at(&bytes("anything"), &vec![bytes("")], 0));
}

#[test]
fn stop_conditions_are_tried_in_order() {
    let all = stop(2, vec![2, 9], vec!["x"], Some(1));
    // everything holds at once: the end-of-sequence token wins
    assert_eq!(all.check(2, &bytes("x"), 1, 5, 5), Some(StopReason::Eos));
    // a stop token wins over stop string and lengths
    assert_eq!(all.check(9, &bytes("x"), 1, 5, 5), Some(StopReason::StopTokenId));
    // a stop string wins over the lengths
    assert_eq!(all.check(4, &bytes("x"), 1, 5, 5), Some(StopReason::StopString));
    // the lengths come last
    assert_eq!(all.check(4, &bytes("y"), 1, 3, 5), Some(StopReason::MaxLength));
    assert_eq!(all.check(4, &bytes("y"), 0, 5, 5), Some(StopReason::MaxLength));
    assert_eq!(all.check(4, &bytes("y"), 0, 4, 5), None);
    assert!(all.is_stop_token(9));
    assert!(!all.is_stop_token(4));
}

#[test]
fn new_sequence_waits_with_its_prompt() {
    let (seq, _rx) = sequence(3, 17, vec![5, 6, 7], stop(2, vec![], vec![], Some(4)), 99, true);
    assert_eq!(seq.id(), 3);
    assert_eq!(seq.timestamp(), 17);
    assert_eq!(seq.len(), 3);
    assert_eq!(seq.prompt_len(), 3);
    assert_eq!(seq.generated_len(), 0);
    assert_eq!(seq.get_toks(), &vec![5, 6, 7]);
    assert_eq!(seq.completion(), Vec::<u32>::new());
    assert_eq!(seq.state(), SequenceState::Waiting);
    assert!(!seq.is_finished());
    assert!(seq.is_streaming());
    assert!(!seq.return_logprobs());
    assert_eq!(seq.max_seq_len(), 99);
    assert_eq!(seq.request_type(), RequestType::Chat);
    assert_eq!(seq.stop_conditions().max_new_tokens, Some(4));
    assert!(seq.text().is_empty());
}

#[test]
fn token_buffer_only_grows() {
    let (mut seq, _rx) = sequence(1, 0, vec![5, 6], stop(2, vec![], vec![], None), 100, false);
    let mut seen: Vec<Vec<u32>> = vec![seq.get_toks().clone()];
    seq.add_token(9, bytes("ignored while waiting"));
    seen.push(seq.get_toks().clone());
    seq.start();
    seen.push(seq.get_toks().clone());
    for t in [7, 8, 2, 11] {
        seq.add_token(t, bytes("t"));
        seen.push(seq.get_toks().clone());
    }
    seq.fail();
    seq.cancel();
    seen.push(seq.get_toks().clone());
    for pair in seen.windows(2) {
        assert!(pair[1].starts_with(&pair[0]));
    }
    // the token after the end-of-sequence token did not get in
    assert_eq!(seq.get_toks(), &vec![5, 6, 7, 8, 2]);
    assert_eq!(seq.completion(), vec![7, 8, 2]);
    assert_eq!(seq.generated_len(), 3);
    assert_eq!(seq.state(), SequenceState::Finished(StopReason::Eos));
}

#[test]
fn lifecycle_only_moves_forward() {
    let (mut seq, _rx) = sequence(1, 0, vec![5], stop(2, vec![], vec![], None), 100, false);
    seq.start();
    assert_eq!(seq.state(), SequenceState::Running);
    seq.start();
    assert_eq!(seq.state(), SequenceState::Running);
    seq.fail();
    assert_eq!(seq.state(), SequenceState::Finished(StopReason::ModelError));
    seq.cancel();
    seq.start();
    assert_eq!(seq.add_token(3, bytes("")), None);
    assert_eq!(seq.state(), SequenceState::Finished(StopReason::ModelError));

    let (mut waiting, _rx) = sequence(2, 0, vec![5], stop(2, vec![], vec![], None), 100, false);
    waiting.cancel();
    assert_eq!(waiting.state(), SequenceState::Finished(StopReason::Canceled));
    waiting.fail();
    assert_eq!(waiting.state(), SequenceState::Finished(StopReason::Canceled));
}

#[test]
fn sequence_reports_why_it_stopped() {
    let (mut seq, _rx) = sequence(1, 0, vec![5], stop(2, vec![9], vec!["END"], Some(3)), 100, false);
    seq.start();
    assert_eq!(seq.add_token(4, bytes("a")), None);
    assert_eq!(seq.text(), &bytes("a"));
    assert_eq!(seq.add_token(9, bytes("a b")), Some(StopReason::StopTokenId));

    let (mut seq, _rx) = sequence(1, 0, vec![5], stop(2, vec![9], vec!["END"], Some(3)), 100, false);
    seq.start();
    assert_eq!(seq.add_token(4, bytes("xxEND now")), Some(StopReason::StopString));
    assert_eq!(seq.text(), &bytes("xx"));

    let (mut seq, _rx) = sequence(1, 0, vec![5], stop(2, vec![9], vec!["END"], Some(3)), 100, false);
    seq.start();
    assert_eq!(seq.add_token(4, bytes("")), None);
    assert_eq!(seq.add_token(4, bytes("")), None);
    assert_eq!(seq.add_token(4, bytes("")), Some(StopReason::MaxLength));

    let (mut seq, _rx) = sequence(1, 0, vec![5, 5], stop(2, vec![], vec![], None), 3, false);
    seq.start();
    assert_eq!(seq.add_token(4, bytes("")), Some(StopReason::MaxLength));
    assert_eq!(seq.state(), SequenceState::Finished(StopReason::MaxLength));
}

#[test]
fn sequence_is_canceled_when_the_receiver_is_gone() {
    let (mut seq, rx) = sequence(1, 0, vec![5], stop(2, vec![], vec![], None), 100, true);
    seq.start();
    assert_eq!(deliver_token(&mut seq, 7, bytes("a")), Emission::Delivered { terminal: false });
    assert_eq!(seq.state(), SequenceState::Running);
    assert!(matches!(rx.try_recv(), Ok(Response::Chunk(_))));
    drop(rx);
    assert_eq!(deliver_token(&mut seq, 8, bytes("a b")), Emission::Dropped { terminal: false });
    assert_eq!(seq.state(), SequenceState::Finished(StopReason::Canceled));
    assert_eq!(seq.get_toks(), &vec![5, 7, 8]);
    assert_eq!(deliver_token(&mut seq, 9, bytes("a b c")), Emission::Nothing);
    assert_eq!(seq.get_toks(), &vec![5, 7, 8]);
}

#[test]
fn message_that_was_not_taken_cancels_the_sequence() {
    let (mut seq, _rx) = sequence(1, 0, vec![5], stop(2, vec![], vec![], None), 100, true);
    seq.start();
    seq.after_send(true);
    assert_eq!(seq.state(), SequenceState::Running);
    seq.after_send(false);
    assert_eq!(seq.state(), SequenceState::Finished(StopReason::Canceled));
    assert_eq!(seq.get_toks(), &vec![5]);

    // a sequence that has ended keeps its reason
    let (mut done, _rx) = sequence(2, 0, vec![5], stop(2, vec![], vec![], None), 100, true);
    done.start();
    done.add_token(2, vec![]);
    done.after_send(false);
    assert_eq!(done.state(), SequenceState::Finished(StopReason::Eos));
}

#[test]
fn token_message_depends_on_streaming_and_on_the_end() {
    let (mut seq, _rx) = sequence(4, 0, vec![5], stop(2, vec![], vec![], None), 100, true);
    seq.start();
    seq.add_token(7, bytes("hello"));
    seq.add_token(8, bytes("hello you"));
    match token_message(&seq, true, 5, 8) {
        Some(Response::Chunk(c)) => {
            assert_eq!(c.request_id, 4);
            assert_eq!(c.delta_text, bytes(" you"));
            assert_eq!(c.delta_tokens, vec![8]);
        }
        other => panic!("unexpected message {:?}", other),
    }
    // a text that got shorter gives an empty piece
    match token_message(&seq, true, 50, 8) {
        Some(Response::Chunk(c)) => assert!(c.delta_text.is_empty()),
        other => panic!("unexpected message {:?}", other),
    }
    assert!(token_message(&seq, false, 5, 8).is_none());

    seq.add_token(2, bytes("hello you."));
    match token_message(&seq, true, 9, 2) {
        Some(Response::Done(done)) => {
            assert_eq!(done.stop_reason, StopReason::Eos);
            assert_eq!(done.tokens, vec![7, 8, 2]);
            assert_eq!(done.full_text, bytes("hello you."));
            assert_eq!(done.usage.prompt_tokens, 1);
            assert_eq!(done.usage.completion_tokens, 3);
            assert_eq!(done.usage.total_tokens, 4);
        }
        other => panic!("unexpected message {:?}", other),
    }

    let (mut quiet, _rx) = sequence(5, 0, vec![5], stop(2, vec![], vec![], None), 100, false);
    quiet.start();
    quiet.add_token(7, bytes("hello"));
    assert!(token_message(&quiet, true, 0, 7).is_none());
}

#[test]
fn failure_message_carries_the_answer_so_far() {
    let (mut seq, _rx) = sequence(4, 0, vec![5, 6], stop(2, vec![], vec![], None), 100, false);
    seq.start();
    seq.add_token(7, bytes("so far"));
    seq.fail();
    match failure_message(&seq, "kernel failure".to_string()) {
        Response::ModelError(message, partial) => {
            assert_eq!(message, "kernel failure");
            assert_eq!(partial.request_id, 4);
            assert_eq!(partial.tokens, vec![7]);
            assert_eq!(partial.full_text, bytes("so far"));
            assert_eq!(partial.stop_reason, StopReason::ModelError);
        }
        other => panic!("unexpected message {:?}", other),
    }
    let answer = completion_response(&seq, StopReason::MaxLength);
    assert_eq!(answer.stop_reason, StopReason::MaxLength);
    assert_eq!(answer.usage.total_tokens, 3);
}

#[test]
fn deliveries_tell_what_became_of_the_message() {
    let (mut seq, rx) = sequence(1, 0, vec![5], stop(2, vec![], vec![], None), 100, true);
    assert_eq!(deliver_token(&mut seq, 7, bytes("a")), Emission::Nothing);
    assert_eq!(deliver_fatal(&mut seq, "x".to_string()), Emission::Nothing);
    seq.start();
    assert_eq!(deliver_token(&mut seq, 7, bytes("a")), Emission::Delivered { terminal: false });
    assert_eq!(
        deliver_failure(&mut seq, "bad".to_string()),
        Emission::Delivered { terminal: true }
    );
    assert_eq!(deliver_failure(&mut seq, "bad".to_string()), Emission::Nothing);
    assert_eq!(rx.try_iter().count(), 2);

    let (mut seq, rx) = sequence(1, 0, vec![5], stop(2, vec![], vec![], None), 100, true);
    seq.start();
    assert_eq!(deliver_fatal(&mut seq, "lost".to_string()), Emission::Delivered { terminal: true });
    assert_eq!(seq.state(), SequenceState::Finished(StopReason::ModelError));
    assert!(matches!(rx.try_recv(), Ok(Response::InternalError(_))));

    let (mut seq, rx) = sequence(1, 0, vec![5], stop(2, vec![], vec![], None), 100, true);
    seq.start();
    drop(rx);
    assert_eq!(deliver_token(&mut seq, 2, bytes("a")), Emission::Dropped { terminal: true });
    assert_eq!(seq.state(), SequenceState::Finished(StopReason::Eos));
}

#[test]
fn scheduler_queues_by_timestamp() {
    let mut s = Scheduler::new(SchedulerMethod::Fixed(8));
    s.add(plain(10, 5, 1));
    s.add(plain(11, 3, 1));
    s.add(plain(12, 5, 1));
    s.add(plain(13, 4, 1));
    s.add(plain(14, 9, 1));
    let order: Vec<usize> = (0..s.len()).map(|i| s.at(i).unwrap().id()).collect();
    assert_eq!(order, vec![11, 13, 10, 12, 14]);
    assert!(s.at(5).is_none());
    assert_eq!(s.find(12), Some(3));
    assert_eq!(s.find(99), None);
    assert_eq!(s.get(13).unwrap().timestamp(), 4);
    assert!(s.get(99).is_none());
}

#[test]
fn fixed_batch_never_mixes_and_alternates() {
    let mut s = Scheduler::new(SchedulerMethod::Fixed(2));
    for (id, ts) in [(1, 1), (2, 2), (3, 3)] {
        s.add(plain(id, ts, 2));
    }
    // room for two: the oldest two start
    let p = s.next_step().unwrap();
    assert_eq!(p.mode, StepMode::Prompt);
    assert_eq!(p.seq_ids, vec![1, 2]);
    assert_eq!(s.get(3).unwrap().state(), SequenceState::Waiting);
    // before their first token the started sequences have nothing to decode
    assert!(s.next_step().is_none());
    s.add_token(1, 7, vec![]);
    s.add_token(2, 7, vec![]);
    // the batch is full: only decode work
    let p = s.next_step().unwrap();
    assert_eq!(p.mode, StepMode::Decode);
    assert_eq!(p.seq_ids, vec![1, 2]);
    s.add_token(1, 2, vec![]);
    assert_eq!(s.get(1).unwrap().state(), SequenceState::Finished(StopReason::Eos));
    // one place is free and the last pass was a decode pass: prompt first
    let p = s.next_step().unwrap();
    assert_eq!(p.mode, StepMode::Prompt);
    assert_eq!(p.seq_ids, vec![3]);
    // the sequence that has just started is not yet in a decode pass
    let p = s.next_step().unwrap();
    assert_eq!(p.mode, StepMode::Decode);
    assert_eq!(p.seq_ids, vec![2]);
    s.add_token(3, 7, vec![]);
    let p = s.next_step().unwrap();
    assert_eq!(p.mode, StepMode::Decode);
    assert_eq!(p.seq_ids, vec![2, 3]);
    let gone = s.retire();
    assert_eq!(gone.len(), 1);
    assert_eq!(gone[0].id(), 1);
    assert_eq!(s.len(), 2);
    assert!(s.get(1).is_none());
}

#[test]
fn prompt_and_decode_take_turns() {
    let mut s = Scheduler::new(SchedulerMethod::Fixed(4));
    s.add(plain(1, 1, 2));
    assert_eq!(s.next_step().unwrap().mode, StepMode::Prompt);
    s.add_token(1, 7, vec![]);
    s.add(plain(2, 2, 2));
    // after a prompt pass the decode work goes first
    let p = s.next_step().unwrap();
    assert_eq!(p.mode, StepMode::Decode);
    assert_eq!(p.seq_ids, vec![1]);
    let p = s.next_step().unwrap();
    assert_eq!(p.mode, StepMode::Prompt);
    assert_eq!(p.seq_ids, vec![2]);
    s.add_token(2, 7, vec![]);
    s.add(plain(3, 3, 2));
    let p = s.next_step().unwrap();
    assert_eq!(p.mode, StepMode::Decode);
    assert_eq!(p.seq_ids, vec![1, 2]);
    assert_eq!(s.next_step().unwrap().seq_ids, vec![3]);
}

#[test]
fn token_budget_counts_padded_prompts() {
    let mut s = Scheduler::new(SchedulerMethod::TokenBudget(10));
    s.add(plain(1, 1, 3));
    s.add(plain(2, 2, 4));
    s.add(plain(3, 3, 2));
    s.add(plain(4, 4, 1));
    // 1 * 3 = 3 < 10, 2 * 4 = 8 < 10, 3 * 4 = 12 reaches the budget
    let p = s.next_step().unwrap();
    assert_eq!(p.mode, StepMode::Prompt);
    assert_eq!(p.seq_ids, vec![1, 2, 3]);
    for id in 1..=3 {
        s.add_token(id, 7, vec![]);
    }
    let p = s.next_step().unwrap();
    assert_eq!(p.mode, StepMode::Decode);
    assert_eq!(p.seq_ids, vec![1, 2, 3]);
    let p = s.next_step().unwrap();
    assert_eq!(p.mode, StepMode::Prompt);
    assert_eq!(p.seq_ids, vec![4]);

    let mut few = Scheduler::new(SchedulerMethod::TokenBudget(2));
    for id in 1..=3 {
        few.add(plain(id, id as u64, 1));
    }
    assert_eq!(few.next_step().unwrap().seq_ids, vec![1, 2]);
    few.add_token(1, 7, vec![]);
    few.add_token(2, 7, vec![]);
    assert_eq!(few.next_step().unwrap().seq_ids, vec![1, 2]);
    assert_eq!(few.next_step().unwrap().seq_ids, vec![3]);
    few.add_token(3, 7, vec![]);
    // a decode pass takes as many sequences as the budget
    let p = few.next_step().unwrap();
    assert_eq!(p.mode, StepMode::Decode);
    assert_eq!(p.seq_ids, vec![1, 2]);
}

#[test]
fn nothing_runs_without_room_or_work() {
    let mut empty = Scheduler::new(SchedulerMethod::Fixed(4));
    assert!(empty.next_step().is_none());
    let mut none = Scheduler::new(SchedulerMethod::Fixed(0));
    none.add(plain(1, 1, 2));
    assert!(none.next_step().is_none());
    let mut broke = Scheduler::new(SchedulerMethod::TokenBudget(0));
    broke.add(plain(1, 1, 2));
    assert!(broke.next_step().is_none());
    assert_eq!(broke.get(1).unwrap().state(), SequenceState::Waiting);
}

#[test]
fn finished_sequences_are_never_picked() {
    let mut s = Scheduler::new(SchedulerMethod::Fixed(4));
    s.add(plain(1, 1, 2));
    s.add(plain(2, 2, 2));
    assert!(s.cancel(1));
    assert!(!s.cancel(7));
    let p = s.next_step().unwrap();
    assert_eq!(p.seq_ids, vec![2]);
    assert!(s.fail(2));
    assert!(!s.fail(7));
    assert!(s.next_step().is_none());
    assert_eq!(s.retire().len(), 2);
    assert_eq!(s.len(), 0);
}

#[test]
fn scheduler_events_touch_one_sequence() {
    let mut s = Scheduler::new(SchedulerMethod::Fixed(4));
    s.add(plain(1, 1, 2));
    s.add(plain(2, 2, 3));
    s.next_step().unwrap();
    assert_eq!(s.add_token(1, 7, vec![]), Some(None));
    assert_eq!(s.add_token(9, 7, vec![]), None);
    assert_eq!(s.add_token(1, 2, vec![]), Some(Some(StopReason::Eos)));
    assert_eq!(s.get(2).unwrap().get_toks(), &vec![1, 1, 1]);
    assert_eq!(s.get(2).unwrap().state(), SequenceState::Running);
    assert_eq!(s.deliver_token(2, 7, vec![]), Some(Emission::Nothing));
    assert_eq!(s.deliver_token(9, 7, vec![]), None);
    assert_eq!(s.deliver_failure(9, "x".to_string()), None);
    assert_eq!(s.token_buffers(&vec![2, 1]), Some(vec![vec![1, 1, 1, 7], vec![1, 1, 7, 2]]));
    assert_eq!(s.token_buffers(&vec![2, 5]), None);
    assert_eq!(s.token_buffers(&vec![]), Some(vec![]));
    assert_eq!(s.deliver_fatal(&"lost".to_string()), 1);
    assert_eq!(s.get(2).unwrap().state(), SequenceState::Finished(StopReason::ModelError));
    assert_eq!(s.get(1).unwrap().state(), SequenceState::Finished(StopReason::Eos));
}

#[test]
fn token_counts_count_each_token() {
    assert_eq!(token_counts(&vec![3, 1, 3, 3, 7, 0], 5), vec![1, 1, 0, 3, 0]);
    assert_eq!(token_counts(&vec![], 3), vec![0, 0, 0]);
    assert_eq!(token_counts(&vec![1, 2], 0), Vec::<usize>::new());
}

#[test]
fn greedy_pick_is_the_best_allowed_token() {
    let mut allowed = vec![false; 20];
    allowed[17] = true;
    // whatever the ranking, the only allowed token is the pick
    assert_eq!(greedy_pick(&vec![3, 17, 5], &allowed), Some(17));
    assert_eq!(greedy_pick(&vec![17, 3, 5], &allowed), Some(17));
    assert_eq!(greedy_pick(&vec![19, 18, 16, 17], &allowed), Some(17));
    assert_eq!(greedy_pick(&vec![3, 5], &allowed), None);
    assert_eq!(greedy_pick(&vec![], &allowed), None);
    // a token without an entry in the mask is not allowed
    assert_eq!(greedy_pick(&vec![25, 17], &allowed), Some(17));
    assert_eq!(greedy_pick(&vec![25], &allowed), None);
    allowed[5] = true;
    assert_eq!(greedy_pick(&vec![3, 5, 17], &allowed), Some(5));
    // the same inputs give the same pick
    assert_eq!(greedy_pick(&vec![3, 5, 17], &allowed), greedy_pick(&vec![3, 5, 17], &allowed));
}

#[test]
fn constrained_greedy_generation_repeats_the_allowed_token() {
    let mut allowed = vec![false; 32];
    allowed[17] = true;
    let (mut seq, _rx) = sequence(1, 0, vec![1, 2, 3], stop(2, vec![], vec![], Some(5)), 100, false);
    seq.start();
    let mut step: u32 = 0;
    while !seq.is_finished() {
        // a ranking that changes from step to step
        let ranking: Vec<u32> = (0..32).map(|t| (t + step * 7) % 32).collect();
        let token = greedy_pick(&ranking, &allowed).unwrap();
        assert_eq!(token, 17);
        seq.add_token(token, vec![]);
        step += 1;
    }
    assert_eq!(seq.completion(), vec![17, 17, 17, 17, 17]);
    assert_eq!(seq.state(), SequenceState::Finished(StopReason::MaxLength));
}

#[test]
fn top_k_keeps_the_best_ranked() {
    assert_eq!(keep_top_k(&vec![9, 4, 7, 1], 2), vec![9, 4]);
    assert_eq!(keep_top_k(&vec![9, 4, 7, 1], 0), vec![9, 4, 7, 1]);
    assert_eq!(keep_top_k(&vec![9, 4, 7, 1], 4), vec![9, 4, 7, 1]);
    assert_eq!(keep_top_k(&vec![9, 4, 7, 1], 9), vec![9, 4, 7, 1]);
    assert_eq!(keep_top_k(&vec![], 3), Vec::<u32>::new());
}

#[test]
fn sequence_keeps_its_sampling_parameters_and_constraint() {
    let (seq, _rx) = sequence(4, 9, vec![1, 1], stop(2, vec![], vec![], None), 100, false);
    assert_eq!(seq.sampling_params().top_k, Some(3));
    assert_eq!(seq.sampling_params().temperature, Some(0));
    assert!(matches!(seq.constraint(), Constraint::Unconstrained));
}

#[test]
fn interleaved_events_leave_each_stream_as_if_alone() {
    let mut both = Scheduler::new(SchedulerMethod::Fixed(4));
    both.add(plain(1, 1, 2));
    both.add(plain(2, 2, 3));
    both.next_step().unwrap();
    both.add_token(1, 7, bytes("a"));
    both.add_token(2, 9, bytes("x"));
    both.add_token(2, 9, bytes("xy"));
    both.add_token(1, 8, bytes("ab"));
    both.fail(2);
    both.add_token(1, 2, bytes("ab"));
    both.add_token(2, 5, bytes("xyz"));

    let mut first = Scheduler::new(SchedulerMethod::Fixed(4));
    first.add(plain(1, 1, 2));
    first.next_step().unwrap();
    first.add_token(1, 7, bytes("a"));
    first.add_token(1, 8, bytes("ab"));
    first.add_token(1, 2, bytes("ab"));

    let mut second = Scheduler::new(SchedulerMethod::Fixed(4));
    second.add(plain(2, 2, 3));
    second.next_step().unwrap();
    second.add_token(2, 9, bytes("x"));
    second.add_token(2, 9, bytes("xy"));
    second.fail(2);
    second.add_token(2, 5, bytes("xyz"));

    for (id, alone) in [(1, &first), (2, &second)] {
        let here = both.get(id).unwrap();
        let there = alone.get(id).unwrap();
        assert_eq!(here.get_toks(), there.get_toks());
        assert_eq!(here.text(), there.text());
        assert_eq!(here.state(), there.state());
    }
    assert_eq!(both.get(1).unwrap().get_toks(), &vec![1, 1, 7, 8, 2]);
    assert_eq!(both.get(1).unwrap().state(), SequenceState::Finished(StopReason::Eos));
    assert_eq!(both.get(2).unwrap().get_toks(), &vec![1, 1, 1, 9, 9]);
    assert_eq!(both.get(2).unwrap().state(), SequenceState::Finished(StopReason::ModelError));
}
