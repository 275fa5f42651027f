//! Choosing the sequences of the next forward pass.
//!
//! The scheduler keeps the sequences in the order of their creation
//! timestamps and never puts prompt work and decode work into one pass.

use vstd::prelude::*;
use vstd::slice::slice_to_vec;
use crate::delivery::{
    deliver_failure, deliver_fatal, deliver_token, emission_of, failure_response, settled,
    token_response, Emission,
};
use crate::sequence::{
    lemma_step_is_monotonic, Sequence, SequenceEvent, SequenceState, SequenceView, StopReason,
};

verus! {

/// How the scheduler fills a pass.
#[derive(Clone, Copy, Debug, PartialEq, Eq, Structural)]
pub enum SchedulerMethod {
    /// At most this many sequences are running at once, and at most this
    /// many are in a pass.
    Fixed(usize),
    /// A prompt pass takes sequences until the sum of their padded prompt
    /// lengths reaches the budget; a decode pass takes sequences until
    /// their number reaches it.
    TokenBudget(usize),
}

/// The kind of a forward pass.
#[derive(Clone, Copy, Debug, PartialEq, Eq, Structural)]
pub enum StepMode {
    /// Whole prompts of sequences that have not generated anything yet.
    Prompt,
    /// One token of sequences that are generating.
    Decode,
}

/// The sequences of one forward pass, by id, oldest first.
pub struct StepPlan {
    pub mode: StepMode,
    pub seq_ids: Vec<usize>,
}

/// What a scheduler holds.
pub struct SchedulerView {
    pub method: SchedulerMethod,
    pub seqs: Seq<SequenceView>,
    /// Whether the last pass handed out was a prompt pass.
    pub last_was_prompt: bool,
}

/// Whether a sequence can take part in a pass of kind `mode`: in a prompt
/// pass the waiting sequences, which have generated nothing; in a decode
/// pass the running sequences that have generated a token; finished
/// sequences in none. A running sequence that has not been given its first
/// token yet waits for it.
pub open spec fn is_candidate(s: SequenceView, mode: StepMode) -> bool {
    match mode {
        StepMode::Prompt => s.state is Waiting && s.generated() == 0,
        StepMode::Decode => s.state is Running && s.generated() > 0,
    }
}

/// Whether no two sequences of the queue have the same id.
pub open spec fn has_unique_ids(seqs: Seq<SequenceView>) -> bool {
    forall|i: int, j: int| 0 <= i < j < seqs.len() ==> seqs[i].id != seqs[j].id
}

/// Number of running sequences among the first `n`.
pub open spec fn count_running(seqs: Seq<SequenceView>, n: nat) -> nat
    decreases n,
{
    if n == 0 {
        0
    } else {
        count_running(seqs, (n - 1) as nat) + if seqs[n - 1].state is Running {
            1nat
        } else {
            0nat
        }
    }
}

/// Whether a pass that already holds `count` sequences, the longest of
/// `width` tokens, takes one more, with `running` sequences running in all.
pub open spec fn has_room(
    method: SchedulerMethod,
    mode: StepMode,
    count: nat,
    width: nat,
    running: nat,
) -> bool {
    match method {
        SchedulerMethod::Fixed(batch) => match mode {
            StepMode::Prompt => count + running < batch,
            StepMode::Decode => count < batch,
        },
        SchedulerMethod::TokenBudget(budget) => match mode {
            StepMode::Prompt => count * width < budget,
            StepMode::Decode => count < budget,
        },
    }
}

/// Number of sequences picked among the first `n`, and the length of the
/// longest of them.
pub open spec fn scan(
    seqs: Seq<SequenceView>,
    method: SchedulerMethod,
    mode: StepMode,
    running: nat,
    n: nat,
) -> (nat, nat)
    decreases n,
{
    if n == 0 {
        (0, 0)
    } else {
        let (count, width) = scan(seqs, method, mode, running, (n - 1) as nat);
        if is_candidate(seqs[n - 1], mode) && has_room(method, mode, count, width, running) {
            (
                count + 1,
                if seqs[n - 1].tokens.len() > width {
                    seqs[n - 1].tokens.len()
                } else {
                    width
                },
            )
        } else {
            (count, width)
        }
    }
}

/// Whether the sequence at place `i` is picked for a pass of kind `mode`: it
/// is a candidate, and the pass still has room when its turn comes.
pub open spec fn picks(
    seqs: Seq<SequenceView>,
    method: SchedulerMethod,
    mode: StepMode,
    running: nat,
    i: int,
) -> bool {
    0 <= i < seqs.len() && is_candidate(seqs[i], mode) && has_room(
        method,
        mode,
        scan(seqs, method, mode, running, i as nat).0,
        scan(seqs, method, mode, running, i as nat).1,
        running,
    )
}

/// The ids of the sequences picked among the first `n`, in queue order.
pub open spec fn picked_ids(
    seqs: Seq<SequenceView>,
    method: SchedulerMethod,
    mode: StepMode,
    running: nat,
    n: nat,
) -> Seq<usize>
    decreases n,
{
    if n == 0 {
        Seq::empty()
    } else {
        let before = picked_ids(seqs, method, mode, running, (n - 1) as nat);
        if picks(seqs, method, mode, running, n - 1) {
            before.push(seqs[n - 1].id)
        } else {
            before
        }
    }
}

/// The first place of a sequence with the given id.
pub open spec fn index_of(seqs: Seq<SequenceView>, id: usize) -> Option<int>
    decreases seqs.len(),
{
    if seqs.len() == 0 {
        None
    } else {
        match index_of(seqs.drop_last(), id) {
            Some(i) => Some(i),
            None => if seqs.last().id == id {
                Some(seqs.len() - 1)
            } else {
                None
            },
        }
    }
}

/// Whether `tokens` is the token buffer of the first sequence with the given
/// id.
pub open spec fn holds_tokens(seqs: Seq<SequenceView>, id: usize, tokens: Seq<u32>) -> bool {
    index_of(seqs, id) matches Some(i) && seqs[i].tokens == tokens
}

/// The queue after an event reached the sequence with the given id; an
/// unknown id changes nothing.
pub open spec fn apply(seqs: Seq<SequenceView>, id: usize, event: SequenceEvent) -> Seq<
    SequenceView,
> {
    match index_of(seqs, id) {
        Some(i) => seqs.update(i, seqs[i].step(event)),
        None => seqs,
    }
}

/// The place at which a sequence created at `timestamp` joins the queue:
/// behind every sequence that is not younger.
pub open spec fn fifo_position(seqs: Seq<SequenceView>, timestamp: u64) -> int
    decreases seqs.len(),
{
    if seqs.len() == 0 {
        0
    } else if seqs.last().timestamp > timestamp {
        fifo_position(seqs.drop_last(), timestamp)
    } else {
        seqs.len() as int
    }
}

/// Whether the queue is ordered by creation timestamp, oldest first.
pub open spec fn is_fifo(seqs: Seq<SequenceView>) -> bool {
    forall|i: int, j: int| 0 <= i <= j < seqs.len() ==> seqs[i].timestamp <= seqs[j].timestamp
}

/// The unfinished sequences, in queue order.
pub open spec fn kept(seqs: Seq<SequenceView>) -> Seq<SequenceView>
    decreases seqs.len(),
{
    if seqs.len() == 0 {
        Seq::empty()
    } else if seqs.last().state is Finished {
        kept(seqs.drop_last())
    } else {
        kept(seqs.drop_last()).push(seqs.last())
    }
}

/// The finished sequences, in queue order.
pub open spec fn retired(seqs: Seq<SequenceView>) -> Seq<SequenceView>
    decreases seqs.len(),
{
    if seqs.len() == 0 {
        Seq::empty()
    } else if seqs.last().state is Finished {
        retired(seqs.drop_last()).push(seqs.last())
    } else {
        retired(seqs.drop_last())
    }
}

impl SchedulerView {
    /// Number of running sequences.
    pub open spec fn running(self) -> nat {
        count_running(self.seqs, self.seqs.len())
    }

    /// Number of sequences a pass of kind `mode` would hold.
    pub open spec fn available(self, mode: StepMode) -> nat {
        scan(self.seqs, self.method, mode, self.running(), self.seqs.len()).0
    }

    /// The kind of the next pass, if there is anything to run. When both
    /// prompt and decode work is to be had, a prompt pass goes first and a
    /// decode pass follows it.
    pub open spec fn next_mode(self) -> Option<StepMode> {
        if self.available(StepMode::Prompt) > 0 && (self.available(StepMode::Decode) == 0
            || !self.last_was_prompt) {
            Some(StepMode::Prompt)
        } else if self.available(StepMode::Decode) > 0 {
            Some(StepMode::Decode)
        } else {
            None
        }
    }

    /// The ids of the next pass.
    pub open spec fn next_ids(self) -> Seq<usize> {
        match self.next_mode() {
            Some(mode) => picked_ids(
                self.seqs,
                self.method,
                mode,
                self.running(),
                self.seqs.len(),
            ),
            None => Seq::empty(),
        }
    }

    /// The scheduler after it handed out the next pass: the sequences of a
    /// prompt pass are running from then on.
    pub open spec fn after_next_step(self) -> SchedulerView {
        match self.next_mode() {
            Some(StepMode::Prompt) => SchedulerView {
                seqs: Seq::new(
                    self.seqs.len(),
                    |i: int|
                        if picks(self.seqs, self.method, StepMode::Prompt, self.running(), i) {
                            self.seqs[i].step(SequenceEvent::Start)
                        } else {
                            self.seqs[i]
                        },
                ),
                last_was_prompt: true,
                ..self
            },
            Some(StepMode::Decode) => SchedulerView { last_was_prompt: false, ..self },
            None => self,
        }
    }
}

proof fn lemma_scan_facts(
    seqs: Seq<SequenceView>,
    method: SchedulerMethod,
    mode: StepMode,
    running: nat,
    n: nat,
)
    requires
        n <= seqs.len(),
    ensures
        scan(seqs, method, mode, running, n).0 == picked_ids(seqs, method, mode, running, n).len(),
        scan(seqs, method, mode, running, n).0 <= n,
        forall|m: nat|
            m <= n ==> scan(seqs, method, mode, running, m).0 <= scan(
                seqs,
                method,
                mode,
                running,
                n,
            ).0 && scan(seqs, method, mode, running, m).1 <= scan(seqs, method, mode, running, n).1,
        method matches SchedulerMethod::Fixed(batch) ==> scan(seqs, method, mode, running, n).0
            <= batch,
        method matches SchedulerMethod::TokenBudget(budget) ==> (mode is Decode ==> scan(
            seqs,
            method,
            mode,
            running,
            n,
        ).0 <= budget),
    decreases n,
{
    if n > 0 {
        lemma_scan_facts(seqs, method, mode, running, (n - 1) as nat);
        assert forall|m: nat| m <= n implies scan(seqs, method, mode, running, m).0 <= scan(
            seqs,
            method,
            mode,
            running,
            n,
        ).0 && scan(seqs, method, mode, running, m).1 <= scan(seqs, method, mode, running, n).1 by {
            if m < n {
                assert(m <= (n - 1) as nat);
            }
        }
    }
}

proof fn lemma_room_only_shrinks(
    method: SchedulerMethod,
    mode: StepMode,
    c1: nat,
    w1: nat,
    c2: nat,
    w2: nat,
    running: nat,
)
    requires
        c1 <= c2,
        w1 <= w2,
        has_room(method, mode, c2, w2, running),
    ensures
        has_room(method, mode, c1, w1, running),
{
    assert(c1 * w1 <= c2 * w2) by (nonlinear_arith)
        requires
            c1 <= c2,
            w1 <= w2,
    ;
}

/// What every pass is like. The sequences of a pass are all of one kind:
/// waiting ones, which have generated nothing, for a prompt pass, and
/// running ones that have generated a token for a decode pass; a finished
/// sequence is never among them.
/// A pass holds as many sequences as it has ids. Under the fixed policy no
/// pass is larger than the batch size, and a prompt pass together with the
/// sequences already running is not either; under the token budget a decode
/// pass is no larger than the budget.
pub proof fn lemma_pass_is_uniform_and_bounded(v: SchedulerView, mode: StepMode, i: int)
    ensures
        picks(v.seqs, v.method, mode, v.running(), i) ==> is_candidate(v.seqs[i], mode) && !(
        v.seqs[i].state is Finished),
        picks(v.seqs, v.method, StepMode::Prompt, v.running(), i) ==> v.seqs[i].generated() == 0,
        picks(v.seqs, v.method, StepMode::Decode, v.running(), i) ==> v.seqs[i].generated() > 0,
        picks(v.seqs, v.method, StepMode::Prompt, v.running(), i) ==> !picks(
            v.seqs,
            v.method,
            StepMode::Decode,
            v.running(),
            i,
        ),
        picked_ids(v.seqs, v.method, mode, v.running(), v.seqs.len()).len() == v.available(mode),
        v.method matches SchedulerMethod::Fixed(batch) ==> v.available(mode) <= batch,
        v.method matches SchedulerMethod::Fixed(batch) ==> (v.available(StepMode::Prompt) > 0
            ==> v.available(StepMode::Prompt) + v.running() <= batch),
        v.method matches SchedulerMethod::TokenBudget(budget) ==> v.available(StepMode::Decode)
            <= budget,
{
    lemma_scan_facts(v.seqs, v.method, mode, v.running(), v.seqs.len());
    lemma_scan_facts(v.seqs, v.method, StepMode::Decode, v.running(), v.seqs.len());
    lemma_prompt_fits_batch(v.seqs, v.method, v.running(), v.seqs.len());
}

/// Whether one of the first `n` sequences is picked and has the given id.
pub open spec fn picked_among(
    seqs: Seq<SequenceView>,
    method: SchedulerMethod,
    mode: StepMode,
    running: nat,
    n: nat,
    id: usize,
) -> bool {
    exists|i: int|
        0 <= i < n && picks(seqs, method, mode, running, i) && (#[trigger] seqs[i]).id == id
}

proof fn lemma_picked_come_from_queue(
    seqs: Seq<SequenceView>,
    method: SchedulerMethod,
    mode: StepMode,
    running: nat,
    n: nat,
)
    requires
        n <= seqs.len(),
    ensures
        forall|k: int|
            0 <= k < picked_ids(seqs, method, mode, running, n).len() ==> picked_among(
                seqs,
                method,
                mode,
                running,
                n,
                #[trigger] picked_ids(seqs, method, mode, running, n)[k],
            ),
        has_unique_ids(seqs) ==> forall|a: int, b: int|
            0 <= a < b < picked_ids(seqs, method, mode, running, n).len() ==> #[trigger] picked_ids(
                seqs,
                method,
                mode,
                running,
                n,
            )[a] != #[trigger] picked_ids(seqs, method, mode, running, n)[b],
    decreases n,
{
    if n > 0 {
        let m = (n - 1) as nat;
        let before = picked_ids(seqs, method, mode, running, m);
        let now = picked_ids(seqs, method, mode, running, n);
        lemma_picked_come_from_queue(seqs, method, mode, running, m);
        assert forall|k: int| 0 <= k < now.len() implies picked_among(
            seqs,
            method,
            mode,
            running,
            n,
            #[trigger] now[k],
        ) by {
            if k < before.len() {
                assert(picked_among(seqs, method, mode, running, m, before[k]));
                let i = choose|i: int|
                    0 <= i < m && picks(seqs, method, mode, running, i) && (
                    #[trigger] seqs[i]).id == before[k];
                assert(seqs[i].id == now[k]);
            } else {
                assert(seqs[n - 1].id == now[k]);
            }
        }
        if has_unique_ids(seqs) {
            assert forall|a: int, b: int| 0 <= a < b < now.len() implies #[trigger] now[a]
                != #[trigger] now[b] by {
                if b >= before.len() {
                    assert(picked_among(seqs, method, mode, running, m, before[a]));
                    let i = choose|i: int|
                        0 <= i < m && picks(seqs, method, mode, running, i) && (
                        #[trigger] seqs[i]).id == before[a];
                    assert(seqs[i].id != seqs[n - 1].id);
                }
            }
        }
    }
}

/// No sequence is in a pass twice: in a queue without two sequences of one
/// id, the ids of a pass are all different. Each id of a pass is the id of
/// a sequence that the pass picks, whatever the queue.
pub proof fn lemma_pass_holds_no_sequence_twice(v: SchedulerView, mode: StepMode)
    ensures
        has_unique_ids(v.seqs) ==> forall|a: int, b: int|
            0 <= a < b < picked_ids(v.seqs, v.method, mode, v.running(), v.seqs.len()).len()
                ==> #[trigger] picked_ids(v.seqs, v.method, mode, v.running(), v.seqs.len())[a]
                != #[trigger] picked_ids(v.seqs, v.method, mode, v.running(), v.seqs.len())[b],
        forall|k: int|
            0 <= k < picked_ids(v.seqs, v.method, mode, v.running(), v.seqs.len()).len()
                ==> picked_among(
                v.seqs,
                v.method,
                mode,
                v.running(),
                v.seqs.len(),
                #[trigger] picked_ids(v.seqs, v.method, mode, v.running(), v.seqs.len())[k],
            ),
{
    lemma_picked_come_from_queue(v.seqs, v.method, mode, v.running(), v.seqs.len());
}

proof fn lemma_prompt_fits_batch(
    seqs: Seq<SequenceView>,
    method: SchedulerMethod,
    running: nat,
    n: nat,
)
    ensures
        method matches SchedulerMethod::Fixed(batch) ==> (scan(
            seqs,
            method,
            StepMode::Prompt,
            running,
            n,
        ).0 > 0 ==> scan(seqs, method, StepMode::Prompt, running, n).0 + running <= batch),
    decreases n,
{
    if n > 0 {
        lemma_prompt_fits_batch(seqs, method, running, (n - 1) as nat);
    }
}

/// First come, first served. A pass never skips a candidate in favour of a
/// younger one: if the sequence at place `j` is picked, every candidate at
/// an earlier place is picked too.
pub proof fn lemma_pass_is_fifo(v: SchedulerView, mode: StepMode, i: int, j: int)
    requires
        0 <= i <= j < v.seqs.len(),
        is_candidate(v.seqs[i], mode),
        picks(v.seqs, v.method, mode, v.running(), j),
    ensures
        picks(v.seqs, v.method, mode, v.running(), i),
{
    lemma_scan_facts(v.seqs, v.method, mode, v.running(), j as nat);
    lemma_room_only_shrinks(
        v.method,
        mode,
        scan(v.seqs, v.method, mode, v.running(), i as nat).0,
        scan(v.seqs, v.method, mode, v.running(), i as nat).1,
        scan(v.seqs, v.method, mode, v.running(), j as nat).0,
        scan(v.seqs, v.method, mode, v.running(), j as nat).1,
        v.running(),
    );
}

/// Neither kind of work starves the other: right after a prompt pass, a
/// decode pass is next whenever there is decode work, and whenever there is
/// prompt work and the last pass was not a prompt pass, a prompt pass is
/// next.
pub proof fn lemma_passes_alternate(v: SchedulerView)
    ensures
        v.last_was_prompt && v.available(StepMode::Decode) > 0 ==> v.next_mode() == Some(
            StepMode::Decode,
        ),
        !v.last_was_prompt && v.available(StepMode::Prompt) > 0 ==> v.next_mode() == Some(
            StepMode::Prompt,
        ),
        v.next_mode() is None <==> v.available(StepMode::Prompt) == 0 && v.available(
            StepMode::Decode,
        ) == 0,
{
}

/// Isolation. An event for one sequence leaves every other sequence of the
/// queue exactly as it was, and the queue as long as it was.
pub proof fn lemma_events_are_isolated(
    seqs: Seq<SequenceView>,
    id: usize,
    event: SequenceEvent,
    j: int,
)
    requires
        0 <= j < seqs.len(),
        seqs[j].id != id,
    ensures
        apply(seqs, id, event).len() == seqs.len(),
        apply(seqs, id, event)[j] == seqs[j],
{
    lemma_index_of(seqs, id);
}

/// The queue after a run of events, each of them for the sequence of its
/// id.
pub open spec fn apply_all(seqs: Seq<SequenceView>, events: Seq<(usize, SequenceEvent)>) -> Seq<
    SequenceView,
>
    decreases events.len(),
{
    if events.len() == 0 {
        seqs
    } else {
        apply(apply_all(seqs, events.drop_last()), events.last().0, events.last().1)
    }
}

/// The events of a run that are for the given id, in their order.
pub open spec fn events_for(events: Seq<(usize, SequenceEvent)>, id: usize) -> Seq<
    SequenceEvent,
>
    decreases events.len(),
{
    if events.len() == 0 {
        Seq::empty()
    } else if events.last().0 == id {
        events_for(events.drop_last(), id).push(events.last().1)
    } else {
        events_for(events.drop_last(), id)
    }
}

/// Streams are independent. In a queue without two sequences of one id,
/// what becomes of a sequence in a run of events for any sequences depends
/// on the events for its own id alone: it is what the sequence would be had
/// it been given those events and nothing else had happened.
pub proof fn lemma_streams_are_independent(
    seqs: Seq<SequenceView>,
    events: Seq<(usize, SequenceEvent)>,
    i: int,
)
    requires
        has_unique_ids(seqs),
        0 <= i < seqs.len(),
    ensures
        apply_all(seqs, events).len() == seqs.len(),
        same_places(seqs, apply_all(seqs, events)),
        has_unique_ids(apply_all(seqs, events)),
        apply_all(seqs, events)[i] == seqs[i].run(events_for(events, seqs[i].id)),
    decreases events.len(),
{
    if events.len() > 0 {
        let init = events.drop_last();
        let (id, event) = events.last();
        let before = apply_all(seqs, init);
        lemma_streams_are_independent(seqs, init, i);
        let v = SchedulerView { method: SchedulerMethod::Fixed(0), seqs: before, last_was_prompt: false };
        lemma_ids_stay_unique(v, id, event, before);
        lemma_index_of(before, id);
        let after = apply(before, id, event);
        assert(same_places(seqs, after)) by {
            assert forall|k: int| 0 <= k < seqs.len() implies (#[trigger] after[k]).id
                == seqs[k].id && after[k].timestamp == seqs[k].timestamp by {
                assert(before[k].id == seqs[k].id);
                assert(after[k].id == before[k].id);
            }
        }
        assert(before[i].id == seqs[i].id);
        if seqs[i].id == id {
            assert(index_of(before, id) == Some(i)) by {
                let found = index_of(before, id)->0;
                if found != i {
                    if found < i {
                        assert(before[found].id != before[i].id);
                    } else {
                        assert(before[i].id != before[found].id);
                    }
                }
            }
            let mine = events_for(events, seqs[i].id);
            assert(mine.drop_last() =~= events_for(init, seqs[i].id));
        }
    }
}

/// `index_of` finds the first sequence with the id, if there is one.
pub proof fn lemma_index_of(seqs: Seq<SequenceView>, id: usize)
    ensures
        match index_of(seqs, id) {
            Some(i) => 0 <= i < seqs.len() && seqs[i].id == id && forall|k: int|
                0 <= k < i ==> seqs[k].id != id,
            None => forall|k: int| 0 <= k < seqs.len() ==> seqs[k].id != id,
        },
    decreases seqs.len(),
{
    if seqs.len() > 0 {
        let init = seqs.drop_last();
        lemma_index_of(init, id);
        assert forall|k: int| 0 <= k < init.len() implies init[k] == seqs[k] by {}
        match index_of(init, id) {
            Some(i) => {
                assert(seqs[i] == init[i]);
                assert forall|k: int| 0 <= k < i implies seqs[k].id != id by {
                    assert(init[k] == seqs[k]);
                }
            },
            None => {
                assert forall|k: int| 0 <= k < seqs.len() - 1 implies seqs[k].id != id by {
                    assert(init[k] == seqs[k]);
                }
            },
        }
    }
}

/// Joining keeps the order: a queue that is ordered by timestamp is still
/// ordered after a sequence joined at its place.
pub proof fn lemma_join_keeps_fifo(seqs: Seq<SequenceView>, s: SequenceView)
    requires
        is_fifo(seqs),
    ensures
        0 <= fifo_position(seqs, s.timestamp) <= seqs.len(),
        is_fifo(seqs.insert(fifo_position(seqs, s.timestamp), s)),
{
    lemma_fifo_position(seqs, s.timestamp);
}

/// The queue stays in order. A queue that is ordered by timestamp is still
/// ordered after an event reached one of its sequences, after a pass was
/// handed out, and after the finished sequences retired. Retiring leaves no
/// finished sequence behind and takes no unfinished one away.
pub proof fn lemma_queue_stays_fifo(v: SchedulerView, id: usize, event: SequenceEvent)
    requires
        is_fifo(v.seqs),
    ensures
        is_fifo(apply(v.seqs, id, event)),
        is_fifo(v.after_next_step().seqs),
        is_fifo(kept(v.seqs)),
        forall|k: int|
            0 <= k < kept(v.seqs).len() ==> !((#[trigger] kept(v.seqs)[k]).state is Finished),
        forall|i: int|
            0 <= i < v.seqs.len() && !(v.seqs[i].state is Finished) ==> kept(v.seqs).contains(
                #[trigger] v.seqs[i],
            ),
{
    lemma_index_of(v.seqs, id);
    let applied = apply(v.seqs, id, event);
    assert forall|i: int, j: int| 0 <= i <= j < applied.len() implies applied[i].timestamp
        <= applied[j].timestamp by {
        lemma_step_is_monotonic(v.seqs[i], event);
        lemma_step_is_monotonic(v.seqs[j], event);
    }
    let stepped = v.after_next_step().seqs;
    assert forall|i: int, j: int| 0 <= i <= j < stepped.len() implies stepped[i].timestamp
        <= stepped[j].timestamp by {
        lemma_step_is_monotonic(v.seqs[i], SequenceEvent::Start);
        lemma_step_is_monotonic(v.seqs[j], SequenceEvent::Start);
    }
    lemma_kept(v.seqs);
}

/// Whether `after` has, place by place, the ids and the timestamps of
/// `before`.
pub open spec fn same_places(before: Seq<SequenceView>, after: Seq<SequenceView>) -> bool {
    &&& after.len() == before.len()
    &&& forall|i: int|
        0 <= i < before.len() ==> (#[trigger] after[i]).id == before[i].id && after[i].timestamp
            == before[i].timestamp
}

/// Ids stay unique. In a queue without two sequences of one id there are
/// still no two after an event reached a sequence, after a pass was handed
/// out, after the finished sequences retired, and after any change that
/// leaves each id at its place.
pub proof fn lemma_ids_stay_unique(
    v: SchedulerView,
    id: usize,
    event: SequenceEvent,
    other: Seq<SequenceView>,
)
    requires
        has_unique_ids(v.seqs),
    ensures
        same_places(v.seqs, apply(v.seqs, id, event)),
        same_places(v.seqs, v.after_next_step().seqs),
        has_unique_ids(apply(v.seqs, id, event)),
        has_unique_ids(v.after_next_step().seqs),
        has_unique_ids(kept(v.seqs)),
        same_places(v.seqs, other) ==> has_unique_ids(other),
{
    lemma_index_of(v.seqs, id);
    let applied = apply(v.seqs, id, event);
    assert forall|i: int| 0 <= i < v.seqs.len() implies (#[trigger] applied[i]).id
        == v.seqs[i].id && applied[i].timestamp == v.seqs[i].timestamp by {
        lemma_step_is_monotonic(v.seqs[i], event);
    }
    let stepped = v.after_next_step().seqs;
    assert forall|i: int| 0 <= i < v.seqs.len() implies (#[trigger] stepped[i]).id
        == v.seqs[i].id && stepped[i].timestamp == v.seqs[i].timestamp by {
        lemma_step_is_monotonic(v.seqs[i], SequenceEvent::Start);
    }
    assert forall|i: int, j: int| 0 <= i < j < applied.len() implies applied[i].id
        != applied[j].id by {
        assert(applied[i].id == v.seqs[i].id && applied[j].id == v.seqs[j].id);
    }
    assert forall|i: int, j: int| 0 <= i < j < stepped.len() implies stepped[i].id
        != stepped[j].id by {
        assert(stepped[i].id == v.seqs[i].id && stepped[j].id == v.seqs[j].id);
    }
    if same_places(v.seqs, other) {
        assert forall|i: int, j: int| 0 <= i < j < other.len() implies other[i].id
            != other[j].id by {
            assert(other[i].id == v.seqs[i].id && other[j].id == v.seqs[j].id);
        }
    }
    lemma_kept_has_unique_ids(v.seqs);
}

proof fn lemma_kept_has_unique_ids(seqs: Seq<SequenceView>)
    requires
        has_unique_ids(seqs),
    ensures
        has_unique_ids(kept(seqs)),
    decreases seqs.len(),
{
    if seqs.len() > 0 {
        let init = seqs.drop_last();
        assert forall|i: int, j: int| 0 <= i < j < init.len() implies init[i].id
            != init[j].id by {
            assert(init[i] == seqs[i] && init[j] == seqs[j]);
        }
        lemma_kept_has_unique_ids(init);
        lemma_kept(init);
        let rest = kept(init);
        let out = kept(seqs);
        assert forall|i: int, j: int| 0 <= i < j < out.len() implies out[i].id != out[j].id by {
            if j < rest.len() {
                assert(out[i] == rest[i] && out[j] == rest[j]);
            } else {
                assert(out[i] == rest[i]);
                assert(init.contains(rest[i]));
                let k = choose|k: int| 0 <= k < init.len() && init[k] == rest[i];
                assert(seqs[k] == init[k]);
                assert(seqs[k].id != seqs[seqs.len() - 1].id);
            }
        }
    }
}

/// What stays after retiring was there before.
pub proof fn lemma_kept_is_part(seqs: Seq<SequenceView>)
    ensures
        forall|k: int| 0 <= k < kept(seqs).len() ==> seqs.contains(#[trigger] kept(seqs)[k]),
{
    lemma_kept(seqs);
}

proof fn lemma_kept(seqs: Seq<SequenceView>)
    ensures
        kept(seqs).len() <= seqs.len(),
        forall|k: int|
            0 <= k < kept(seqs).len() ==> !((#[trigger] kept(seqs)[k]).state is Finished)
                && seqs.contains(kept(seqs)[k]),
        forall|i: int|
            0 <= i < seqs.len() && !(seqs[i].state is Finished) ==> kept(seqs).contains(
                #[trigger] seqs[i],
            ),
        is_fifo(seqs) ==> is_fifo(kept(seqs)),
    decreases seqs.len(),
{
    if seqs.len() > 0 {
        let init = seqs.drop_last();
        let last = seqs.last();
        lemma_kept(init);
        let out = kept(seqs);
        assert forall|k: int| 0 <= k < out.len() implies !((#[trigger] out[k]).state is Finished)
            && seqs.contains(out[k]) by {
            if k < kept(init).len() {
                assert(out[k] == kept(init)[k]);
                assert(init.contains(kept(init)[k]));
                let j = choose|j: int| 0 <= j < init.len() && init[j] == kept(init)[k];
                assert(seqs[j] == out[k]);
            } else {
                assert(seqs[seqs.len() - 1] == out[k]);
            }
        }
        assert forall|i: int| 0 <= i < seqs.len() && !(seqs[i].state is Finished) implies out.contains(
            #[trigger] seqs[i],
        ) by {
            if i < init.len() {
                assert(init[i] == seqs[i]);
                assert(kept(init).contains(init[i]));
                let k = choose|k: int| 0 <= k < kept(init).len() && kept(init)[k] == init[i];
                assert(out[k] == seqs[i]);
            } else {
                assert(out[out.len() - 1] == seqs[i]);
            }
        }
        if is_fifo(seqs) {
            assert(is_fifo(init)) by {
                assert forall|i: int, j: int| 0 <= i <= j < init.len() implies init[i].timestamp
                    <= init[j].timestamp by {
                    assert(init[i] == seqs[i] && init[j] == seqs[j]);
                }
            }
            assert forall|i: int, j: int| 0 <= i <= j < out.len() implies out[i].timestamp
                <= out[j].timestamp by {
                if j < kept(init).len() {
                    assert(out[i] == kept(init)[i] && out[j] == kept(init)[j]);
                } else if i < kept(init).len() {
                    assert(out[i] == kept(init)[i]);
                    assert(init.contains(kept(init)[i]));
                    let m = choose|m: int| 0 <= m < init.len() && init[m] == kept(init)[i];
                    assert(seqs[m] == out[i]);
                    assert(seqs[seqs.len() - 1] == out[j]);
                }
            }
        }
    }
}

/// First in, first out. A sequence that is not older than any sequence of
/// the queue joins at the end.
pub proof fn lemma_youngest_joins_last(seqs: Seq<SequenceView>, timestamp: u64)
    requires
        forall|i: int| 0 <= i < seqs.len() ==> seqs[i].timestamp <= timestamp,
    ensures
        fifo_position(seqs, timestamp) == seqs.len(),
{
}

/// A joining sequence finds its place within the queue, behind a sequence
/// that is not younger and in front of the younger ones.
pub proof fn lemma_fifo_position(seqs: Seq<SequenceView>, timestamp: u64)
    ensures
        0 <= fifo_position(seqs, timestamp) <= seqs.len(),
        forall|k: int|
            fifo_position(seqs, timestamp) <= k < seqs.len() ==> seqs[k].timestamp > timestamp,
        fifo_position(seqs, timestamp) > 0 ==> seqs[fifo_position(seqs, timestamp) - 1].timestamp
            <= timestamp,
    decreases seqs.len(),
{
    if seqs.len() > 0 && seqs.last().timestamp > timestamp {
        let init = seqs.drop_last();
        lemma_fifo_position(init, timestamp);
        let p = fifo_position(init, timestamp);
        assert forall|k: int| p <= k < seqs.len() implies seqs[k].timestamp > timestamp by {
            if k < init.len() {
                assert(init[k] == seqs[k]);
            }
        }
        if p > 0 {
            assert(init[p - 1] == seqs[p - 1]);
        }
    }
}

/// The sequences waiting or running.
pub struct Scheduler {
    method: SchedulerMethod,
    seqs: Vec<Sequence>,
    last_was_prompt: bool,
}

impl Scheduler {
    pub closed spec fn view(&self) -> SchedulerView {
        SchedulerView {
            method: self.method,
            seqs: Seq::new(self.seqs@.len(), |i: int| self.seqs@[i]@),
            last_was_prompt: self.last_was_prompt,
        }
    }

    /// A scheduler without sequences.
    pub fn new(method: SchedulerMethod) -> (s: Scheduler)
        ensures
            s@ == (SchedulerView {
                method,
                seqs: Seq::<SequenceView>::empty(),
                last_was_prompt: false,
            }),
    {
        let s = Scheduler { method, seqs: Vec::new(), last_was_prompt: false };
        proof {
            assert(s@.seqs =~= Seq::<SequenceView>::empty());
        }
        s
    }

    /// The policy.
    pub fn method(&self) -> (m: SchedulerMethod)
        ensures
            m == self@.method,
    {
        self.method
    }

    /// Number of sequences held, finished ones included until they retire.
    pub fn len(&self) -> (n: usize)
        ensures
            n == self@.seqs.len(),
    {
        self.seqs.len()
    }

    /// The place of the first sequence with the given id.
    pub fn find(&self, id: usize) -> (r: Option<usize>)
        ensures
            match r {
                Some(i) => index_of(self@.seqs, id) == Some(i as int) && i < self@.seqs.len(),
                None => index_of(self@.seqs, id) is None,
            },
    {
        let mut i: usize = 0;
        while i < self.seqs.len()
            invariant
                i <= self.seqs.len(),
                forall|k: int| 0 <= k < i ==> self@.seqs[k].id != id,
            decreases self.seqs.len() - i,
        {
            if self.seqs[i].id() == id {
                proof {
                    lemma_index_of(self@.seqs, id);
                    assert(self@.seqs[i as int].id == id);
                }
                return Some(i);
            }
            i = i + 1;
        }
        proof {
            lemma_index_of(self@.seqs, id);
        }
        None
    }

    /// The first sequence with the given id.
    pub fn get(&self, id: usize) -> (r: Option<&Sequence>)
        ensures
            match r {
                Some(s) => index_of(self@.seqs, id) is Some && s@ == self@.seqs[index_of(
                    self@.seqs,
                    id,
                )->0],
                None => index_of(self@.seqs, id) is None,
            },
    {
        match self.find(id) {
            Some(i) => Some(&self.seqs[i]),
            None => None,
        }
    }

    /// The sequence at a place of the queue.
    pub fn at(&self, i: usize) -> (r: Option<&Sequence>)
        ensures
            match r {
                Some(s) => i < self@.seqs.len() && s@ == self@.seqs[i as int],
                None => i >= self@.seqs.len(),
            },
    {
        if i < self.seqs.len() {
            Some(&self.seqs[i])
        } else {
            None
        }
    }

    /// Takes a sequence into the queue, behind every sequence that is not
    /// younger.
    pub fn add(&mut self, seq: Sequence)
        ensures
            final(self)@ == (SchedulerView {
                seqs: old(self)@.seqs.insert(
                    fifo_position(old(self)@.seqs, seq@.timestamp),
                    seq@,
                ),
                ..old(self)@
            }),
    {
        let ts = seq.timestamp();
        let mut p: usize = self.seqs.len();
        proof {
            assert(self@.seqs.take(p as int) =~= self@.seqs);
        }
        while p > 0 && self.seqs[p - 1].timestamp() > ts
            invariant
                p <= self.seqs.len(),
                fifo_position(self@.seqs, ts) == fifo_position(self@.seqs.take(p as int), ts),
            decreases p,
        {
            proof {
                assert(self@.seqs.take(p as int).drop_last() =~= self@.seqs.take(p - 1));
            }
            p = p - 1;
        }
        proof {
            assert(self@.seqs.take(self.seqs.len() as int) =~= self@.seqs);
            if p > 0 {
                assert(self@.seqs.take(p as int).last() == self@.seqs[p - 1]);
            }
            assert(fifo_position(self@.seqs, ts) == p);
        }
        let ghost before = self@.seqs;
        let ghost joined = seq@;
        self.seqs.insert(p, seq);
        proof {
            assert(self@.seqs =~= before.insert(p as int, joined));
        }
    }

    fn count_running(&self) -> (n: usize)
        ensures
            n == self@.running(),
    {
        let mut n: usize = 0;
        let mut i: usize = 0;
        while i < self.seqs.len()
            invariant
                i <= self.seqs.len(),
                n == count_running(self@.seqs, i as nat),
                n <= i,
            decreases self.seqs.len() - i,
        {
            match self.seqs[i].state() {
                SequenceState::Running => {
                    n = n + 1;
                },
                _ => {},
            }
            i = i + 1;
        }
        n
    }

    fn room(&self, mode: StepMode, count: usize, width: usize, running: usize) -> (b: bool)
        ensures
            b == has_room(self@.method, mode, count as nat, width as nat, running as nat),
    {
        match self.method {
            SchedulerMethod::Fixed(batch) => match mode {
                StepMode::Prompt => running < batch && count < batch - running,
                StepMode::Decode => count < batch,
            },
            SchedulerMethod::TokenBudget(budget) => match mode {
                StepMode::Prompt => match count.checked_mul(width) {
                    Some(sum) => sum < budget,
                    None => false,
                },
                StepMode::Decode => count < budget,
            },
        }
    }

    /// The places and ids of the sequences that a pass of kind `mode` holds.
    fn pick(&self, mode: StepMode, running: usize) -> (r: (Vec<usize>, Vec<usize>))
        requires
            running == self@.running(),
        ensures
            r.1@ == picked_ids(self@.seqs, self@.method, mode, running as nat, self@.seqs.len()),
            r.0.len() == r.1.len(),
            r.0.len() == self@.available(mode),
            forall|k: int| 0 <= k < r.0.len() ==> 0 <= #[trigger] r.0[k] < self@.seqs.len(),
            forall|i: int|
                0 <= i < self@.seqs.len() ==> (picks(
                    self@.seqs,
                    self@.method,
                    mode,
                    running as nat,
                    i,
                ) <==> exists|k: int| 0 <= k < r.0.len() && #[trigger] r.0[k] == i),
    {
        let mut places: Vec<usize> = Vec::new();
        let mut ids: Vec<usize> = Vec::new();
        let mut width: usize = 0;
        let mut i: usize = 0;
        while i < self.seqs.len()
            invariant
                i <= self.seqs.len(),
                running == self@.running(),
                ids@ == picked_ids(self@.seqs, self@.method, mode, running as nat, i as nat),
                places.len() == ids.len(),
                places.len() == scan(self@.seqs, self@.method, mode, running as nat, i as nat).0,
                width == scan(self@.seqs, self@.method, mode, running as nat, i as nat).1,
                places.len() <= i,
                forall|k: int| 0 <= k < places.len() ==> 0 <= #[trigger] places[k] < i,
                forall|m: int|
                    0 <= m < i ==> (picks(self@.seqs, self@.method, mode, running as nat, m)
                        <==> exists|k: int| 0 <= k < places.len() && #[trigger] places[k] == m),
            decreases self.seqs.len() - i,
        {
            let s = &self.seqs[i];
            let generated = s.generated_len();
            let candidate = match mode {
                StepMode::Prompt => match s.state() {
                    SequenceState::Waiting => generated == 0,
                    _ => false,
                },
                StepMode::Decode => match s.state() {
                    SequenceState::Running => generated > 0,
                    _ => false,
                },
            };
            let ghost old_places = places@;
            if candidate && self.room(mode, places.len(), width, running) {
                places.push(i);
                ids.push(s.id());
                if s.len() > width {
                    width = s.len();
                }
                proof {
                    assert(places@[old_places.len() as int] == i);
                    assert forall|m: int| 0 <= m < i + 1 implies (picks(
                        self@.seqs,
                        self@.method,
                        mode,
                        running as nat,
                        m,
                    ) <==> exists|k: int| 0 <= k < places.len() && #[trigger] places[k] == m) by {
                        if m < i {
                            if picks(self@.seqs, self@.method, mode, running as nat, m) {
                                let k = choose|k: int|
                                    0 <= k < old_places.len() && #[trigger] old_places[k] == m;
                                assert(places[k] == m);
                            }
                        }
                    }
                }
            } else {
                proof {
                    assert forall|m: int| 0 <= m < i + 1 implies (picks(
                        self@.seqs,
                        self@.method,
                        mode,
                        running as nat,
                        m,
                    ) <==> exists|k: int| 0 <= k < places.len() && #[trigger] places[k] == m) by {}
                }
            }
            i = i + 1;
        }
        proof {
            assert forall|m: int| 0 <= m < self@.seqs.len() implies (picks(
                self@.seqs,
                self@.method,
                mode,
                running as nat,
                m,
            ) <==> exists|k: int| 0 <= k < places.len() && #[trigger] places[k] == m) by {}
        }
        (places, ids)
    }

    /// Hands out the next pass, or nothing when no sequence can run. The
    /// sequences of a prompt pass are running from then on.
    pub fn next_step(&mut self) -> (plan: Option<StepPlan>)
        ensures
            final(self)@ == old(self)@.after_next_step(),
            match plan {
                Some(p) => old(self)@.next_mode() == Some(p.mode) && p.seq_ids@ == old(
                    self,
                )@.next_ids() && p.seq_ids.len() > 0,
                None => old(self)@.next_mode() is None,
            },
    {
        let running = self.count_running();
        let (prompt_places, prompt_ids) = self.pick(StepMode::Prompt, running);
        let (decode_places, decode_ids) = self.pick(StepMode::Decode, running);
        if prompt_places.len() > 0 && (decode_places.len() == 0 || !self.last_was_prompt) {
            let ghost before = self@;
            let mut k: usize = 0;
            while k < prompt_places.len()
                invariant
                    k <= prompt_places.len(),
                    self.method == before.method,
                    self.last_was_prompt == before.last_was_prompt,
                    self@.seqs.len() == before.seqs.len(),
                    forall|n: int|
                        0 <= n < prompt_places.len() ==> 0 <= #[trigger] prompt_places[n]
                            < before.seqs.len(),
                    forall|i: int|
                        0 <= i < before.seqs.len() ==> #[trigger] self@.seqs[i] == if exists|n: int|
                            0 <= n < k && #[trigger] prompt_places[n] == i {
                            before.seqs[i].step(SequenceEvent::Start)
                        } else {
                            before.seqs[i]
                        },
                decreases prompt_places.len() - k,
            {
                let place = prompt_places[k];
                let ghost prev = self@.seqs;
                let ghost prev_vec = self.seqs@;
                let seq = &mut self.seqs[place];
                seq.start();
                proof {
                    assert(self.seqs@.len() == prev_vec.len());
                    assert forall|i: int| 0 <= i < before.seqs.len() implies #[trigger] self@.seqs[i]
                        == if exists|n: int| 0 <= n < k + 1 && #[trigger] prompt_places[n] == i {
                        before.seqs[i].step(SequenceEvent::Start)
                    } else {
                        before.seqs[i]
                    } by {
                        if i == place {
                            assert(prompt_places[k as int] == i);
                            assert(prev[i] == prev_vec[i]@);
                        } else {
                            assert(self.seqs@[i] == prev_vec[i]);
                            assert(prev[i] == prev_vec[i]@);
                            if exists|n: int| 0 <= n < k + 1 && #[trigger] prompt_places[n] == i {
                                let n = choose|n: int|
                                    0 <= n < k + 1 && #[trigger] prompt_places[n] == i;
                                assert(n < k);
                            }
                        }
                    }
                }
                k = k + 1;
            }
            self.last_was_prompt = true;
            proof {
                assert(self@.seqs =~= before.after_next_step().seqs);
            }
            Some(StepPlan { mode: StepMode::Prompt, seq_ids: prompt_ids })
        } else if decode_places.len() > 0 {
            self.last_was_prompt = false;
            Some(StepPlan { mode: StepMode::Decode, seq_ids: decode_ids })
        } else {
            None
        }
    }

    /// Appends a sampled token to the first sequence with the given id.
    /// Returns nothing for an unknown id, and otherwise what the sequence
    /// returned: the reason, if it finished.
    pub fn add_token(&mut self, id: usize, token: u32, text: Vec<u8>) -> (r: Option<
        Option<StopReason>,
    >)
        ensures
            final(self)@ == (SchedulerView {
                seqs: apply(old(self)@.seqs, id, SequenceEvent::Token { token, text: text@ }),
                ..old(self)@
            }),
            match index_of(old(self)@.seqs, id) {
                None => r is None,
                Some(i) => r == Some(
                    if old(self)@.seqs[i].state is Running {
                        old(self)@.seqs[i].reason_after(token, text@)
                    } else {
                        None
                    },
                ),
            },
    {
        match self.find(id) {
            None => None,
            Some(i) => {
                let ghost before = self@.seqs;
                let ghost before_vec = self.seqs@;
                let seq = &mut self.seqs[i];
                let r = seq.add_token(token, text);
                proof {
                    assert(self@.seqs =~= before.update(
                        i as int,
                        before[i as int].step(SequenceEvent::Token { token, text: text@ }),
                    )) by {
                        assert forall|k: int| 0 <= k < before.len() implies self@.seqs[k]
                            == before.update(
                            i as int,
                            before[i as int].step(SequenceEvent::Token { token, text: text@ }),
                        )[k] by {
                            assert(before[k] == before_vec[k]@);
                        }
                    }
                }
                Some(r)
            },
        }
    }

    /// Finishes the first sequence with the given id because the model
    /// failed on it. Returns whether the id is known.
    pub fn fail(&mut self, id: usize) -> (known: bool)
        ensures
            final(self)@ == (SchedulerView {
                seqs: apply(old(self)@.seqs, id, SequenceEvent::Fail),
                ..old(self)@
            }),
            known == index_of(old(self)@.seqs, id) is Some,
    {
        match self.find(id) {
            None => false,
            Some(i) => {
                let ghost before = self@.seqs;
                let ghost before_vec = self.seqs@;
                let seq = &mut self.seqs[i];
                seq.fail();
                proof {
                    assert(self@.seqs =~= before.update(
                        i as int,
                        before[i as int].step(SequenceEvent::Fail),
                    )) by {
                        assert forall|k: int| 0 <= k < before.len() implies self@.seqs[k]
                            == before.update(i as int, before[i as int].step(SequenceEvent::Fail))[k] by {
                            assert(before[k] == before_vec[k]@);
                        }
                    }
                }
                true
            },
        }
    }

    /// Finishes the first sequence with the given id because nobody receives
    /// its responses any more. Returns whether the id is known.
    pub fn cancel(&mut self, id: usize) -> (known: bool)
        ensures
            final(self)@ == (SchedulerView {
                seqs: apply(old(self)@.seqs, id, SequenceEvent::Cancel),
                ..old(self)@
            }),
            known == index_of(old(self)@.seqs, id) is Some,
    {
        match self.find(id) {
            None => false,
            Some(i) => {
                let ghost before = self@.seqs;
                let ghost before_vec = self.seqs@;
                let seq = &mut self.seqs[i];
                seq.cancel();
                proof {
                    assert(self@.seqs =~= before.update(
                        i as int,
                        before[i as int].step(SequenceEvent::Cancel),
                    )) by {
                        assert forall|k: int| 0 <= k < before.len() implies self@.seqs[k]
                            == before.update(i as int, before[i as int].step(SequenceEvent::Cancel))[k] by {
                            assert(before[k] == before_vec[k]@);
                        }
                    }
                }
                true
            },
        }
    }

    /// Hands a sampled token to the first sequence with the given id and
    /// sends what is due; `text` is the generated text including the token.
    /// Returns nothing for an unknown id.
    pub fn deliver_token(&mut self, id: usize, token: u32, text: Vec<u8>) -> (r: Option<Emission>)
        ensures
            match index_of(old(self)@.seqs, id) {
                None => r is None && final(self)@ == old(self)@,
                Some(i) => r matches Some(e) && e == emission_of(
                    token_response(old(self)@.seqs[i], token, text@),
                    !(e is Dropped),
                ) && final(self)@ == (SchedulerView {
                    seqs: old(self)@.seqs.update(
                        i,
                        settled(
                            old(self)@.seqs[i],
                            SequenceEvent::Token { token, text: text@ },
                            e,
                        ),
                    ),
                    ..old(self)@
                }),
            },
    {
        match self.find(id) {
            None => None,
            Some(i) => {
                let ghost before = self@.seqs;
                let ghost before_vec = self.seqs@;
                let seq = &mut self.seqs[i];
                let e = deliver_token(seq, token, text);
                proof {
                    let after = settled(
                        before[i as int],
                        SequenceEvent::Token { token, text: text@ },
                        e,
                    );
                    assert(before[i as int] == before_vec[i as int]@);
                    assert(self@.seqs =~= before.update(i as int, after)) by {
                        assert forall|k: int| 0 <= k < before.len() implies self@.seqs[k]
                            == before.update(i as int, after)[k] by {
                            assert(before[k] == before_vec[k]@);
                        }
                    }
                }
                Some(e)
            },
        }
    }

    /// Ends the first sequence with the given id because the model failed on
    /// it, and sends the error with the answer so far. Returns nothing for
    /// an unknown id.
    pub fn deliver_failure(&mut self, id: usize, message: String) -> (r: Option<Emission>)
        ensures
            match index_of(old(self)@.seqs, id) {
                None => r is None && final(self)@ == old(self)@,
                Some(i) => r matches Some(e) && e == emission_of(
                    failure_response(old(self)@.seqs[i], message@),
                    !(e is Dropped),
                ) && final(self)@ == (SchedulerView {
                    seqs: old(self)@.seqs.update(
                        i,
                        settled(old(self)@.seqs[i], SequenceEvent::Fail, e),
                    ),
                    ..old(self)@
                }),
            },
    {
        match self.find(id) {
            None => None,
            Some(i) => {
                let ghost before = self@.seqs;
                let ghost before_vec = self.seqs@;
                let seq = &mut self.seqs[i];
                let e = deliver_failure(seq, message);
                proof {
                    let after = settled(before[i as int], SequenceEvent::Fail, e);
                    assert(before[i as int] == before_vec[i as int]@);
                    assert(self@.seqs =~= before.update(i as int, after)) by {
                        assert forall|k: int| 0 <= k < before.len() implies self@.seqs[k]
                            == before.update(i as int, after)[k] by {
                            assert(before[k] == before_vec[k]@);
                        }
                    }
                }
                Some(e)
            },
        }
    }

    /// Ends every running sequence because the engine failed for good, and
    /// sends each of them the error. Sequences that are waiting or finished
    /// are left alone. Returns the number of sequences ended.
    pub fn deliver_fatal(&mut self, message: &String) -> (ended: usize)
        ensures
            final(self)@ == (SchedulerView {
                seqs: Seq::new(
                    old(self)@.seqs.len(),
                    |i: int|
                        if old(self)@.seqs[i].state is Running {
                            old(self)@.seqs[i].step(SequenceEvent::Fail)
                        } else {
                            old(self)@.seqs[i]
                        },
                ),
                ..old(self)@
            }),
            ended == old(self)@.running(),
    {
        let ghost before = self@.seqs;
        let mut ended: usize = 0;
        let mut i: usize = 0;
        while i < self.seqs.len()
            invariant
                i <= self.seqs.len(),
                self.method == old(self).method,
                self.last_was_prompt == old(self).last_was_prompt,
                self@.seqs.len() == before.len(),
                ended == count_running(before, i as nat),
                ended <= i,
                forall|k: int|
                    0 <= k < before.len() ==> #[trigger] self@.seqs[k] == if k < i
                        && before[k].state is Running {
                        before[k].step(SequenceEvent::Fail)
                    } else {
                        before[k]
                    },
            decreases self.seqs.len() - i,
        {
            let ghost cur = self@.seqs;
            let ghost cur_vec = self.seqs@;
            let seq = &mut self.seqs[i];
            let e = deliver_fatal(seq, message.clone());
            match e {
                Emission::Nothing => {},
                _ => {
                    ended = ended + 1;
                },
            }
            proof {
                assert(cur[i as int] == cur_vec[i as int]@);
                assert forall|k: int| 0 <= k < before.len() implies #[trigger] self@.seqs[k]
                    == if k < i + 1 && before[k].state is Running {
                    before[k].step(SequenceEvent::Fail)
                } else {
                    before[k]
                } by {
                    assert(cur[k] == cur_vec[k]@);
                }
            }
            i = i + 1;
        }
        proof {
            assert(self@.seqs =~= Seq::new(
                before.len(),
                |i: int|
                    if before[i].state is Running {
                        before[i].step(SequenceEvent::Fail)
                    } else {
                        before[i]
                    },
            ));
        }
        ended
    }

    /// The token buffers of the sequences with the given ids, in the order
    /// of the ids; nothing if one of the ids is unknown.
    pub fn token_buffers(&self, ids: &Vec<usize>) -> (r: Option<Vec<Vec<u32>>>)
        ensures
            match r {
                Some(rows) => rows.len() == ids.len() && forall|k: int|
                    0 <= k < ids.len() ==> holds_tokens(self@.seqs, ids@[k], #[trigger] rows@[k]@),
                None => exists|k: int|
                    0 <= k < ids.len() && index_of(self@.seqs, #[trigger] ids@[k]) is None,
            },
    {
        let mut rows: Vec<Vec<u32>> = Vec::new();
        let mut k: usize = 0;
        while k < ids.len()
            invariant
                k <= ids.len(),
                rows.len() == k,
                forall|m: int|
                    0 <= m < k ==> holds_tokens(self@.seqs, ids@[m], #[trigger] rows@[m]@),
            decreases ids.len() - k,
        {
            match self.get(ids[k]) {
                None => {
                    return None;
                },
                Some(seq) => {
                    let row = slice_to_vec(seq.get_toks().as_slice());
                    proof {
                        assert(holds_tokens(self@.seqs, ids@[k as int], row@));
                    }
                    rows.push(row);
                },
            }
            k = k + 1;
        }
        Some(rows)
    }

    /// Takes the finished sequences out of the queue and returns them, both
    /// in queue order.
    pub fn retire(&mut self) -> (gone: Vec<Sequence>)
        ensures
            final(self)@ == (SchedulerView { seqs: kept(old(self)@.seqs), ..old(self)@ }),
            gone@.len() == retired(old(self)@.seqs).len(),
            forall|k: int| 0 <= k < gone@.len() ==> (#[trigger] gone@[k])@ == retired(
                old(self)@.seqs,
            )[k],
    {
        let ghost before = self@.seqs;
        let mut gone: Vec<Sequence> = Vec::new();
        let mut i: usize = 0;
        let ghost mut done: int = 0;
        while i < self.seqs.len()
            invariant
                i <= self.seqs.len(),
                self.method == old(self).method,
                self.last_was_prompt == old(self).last_was_prompt,
                0 <= done <= before.len(),
                done == i + gone.len(),
                self.seqs.len() - i == before.len() - done,
                self@.seqs.take(i as int) == kept(before.take(done)),
                self@.seqs.skip(i as int) == before.skip(done),
                gone@.len() == retired(before.take(done)).len(),
                forall|k: int| 0 <= k < gone@.len() ==> (#[trigger] gone@[k])@ == retired(
                    before.take(done),
                )[k],
            decreases self.seqs.len() - i,
        {
            let ghost cur = self@.seqs;
            let ghost cur_vec = self.seqs@;
            proof {
                assert(cur.skip(i as int)[0] == before.skip(done)[0]);
                assert(cur[i as int] == before[done]);
                assert(before.take(done + 1).drop_last() =~= before.take(done));
                assert(before.take(done + 1).last() == before[done]);
            }
            if self.seqs[i].is_finished() {
                let s = self.seqs.remove(i);
                proof {
                    assert(s@ == before[done]);
                    assert(self@.seqs =~= cur.remove(i as int)) by {
                        assert forall|k: int| 0 <= k < self@.seqs.len() implies self@.seqs[k]
                            == cur.remove(i as int)[k] by {
                            if k < i {
                                assert(cur[k] == cur_vec[k]@);
                            } else {
                                assert(cur[k + 1] == cur_vec[k + 1]@);
                            }
                        }
                    }
                    assert(self@.seqs.take(i as int) =~= cur.take(i as int));
                    assert(self@.seqs.skip(i as int) =~= cur.skip(i as int).skip(1));
                    assert(before.skip(done).skip(1) =~= before.skip(done + 1));
                }
                gone.push(s);
                proof {
                    done = done + 1;
                }
            } else {
                proof {
                    assert(self@.seqs.take(i + 1) =~= cur.take(i as int).push(cur[i as int]));
                    assert(self@.seqs.skip(i + 1) =~= cur.skip(i as int).skip(1));
                    assert(before.skip(done).skip(1) =~= before.skip(done + 1));
                    done = done + 1;
                }
                i = i + 1;
            }
        }
        proof {
            assert(done == before.len());
            assert(before.take(done) =~= before);
            assert(self@.seqs.take(i as int) =~= self@.seqs);
        }
        gone
    }
}

} // verus!
