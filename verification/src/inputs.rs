//! Building the token rows that a forward pass is fed with, and finding the
//! row of logits that belongs to each sequence.

use vstd::prelude::*;

verus! {

/// The token id that fills a row up to the width of the batch.
pub const PADDING_TOKEN: u32 = 0;

/// What one forward pass is fed with.
pub struct ModelInputs {
    /// One row of token ids per sequence, all of one width.
    pub rows: Vec<Vec<u32>>,
    /// For each sequence, the number of positions that are already cached
    /// and precede its row.
    pub seqlen_offsets: Vec<usize>,
    /// For each sequence, the range `(start, len)` of its row whose last
    /// position yields the logits for the next token.
    pub context_lens: Vec<(usize, usize)>,
}

/// Why no row of logits can be picked.
#[derive(Clone, Copy, Debug, PartialEq, Eq, Structural)]
pub enum InputError {
    /// A context range is empty.
    EmptyContext,
    /// A context range ends beyond the positions of the forward pass.
    OutOfRange,
}

/// The length of the longest of `toks`.
pub open spec fn max_len(toks: Seq<Seq<u32>>) -> nat
    decreases toks.len(),
{
    if toks.len() == 0 {
        0
    } else {
        let m = max_len(toks.drop_last());
        if toks.last().len() > m {
            toks.last().len()
        } else {
            m
        }
    }
}

/// `row`, followed by padding up to `width`.
pub open spec fn padded(row: Seq<u32>, width: nat) -> Seq<u32> {
    if row.len() >= width {
        row
    } else {
        row + Seq::new((width - row.len()) as nat, |i: int| PADDING_TOKEN)
    }
}

/// Rows of a prompt step: every sequence in full, padded to the longest.
pub open spec fn prompt_rows(toks: Seq<Seq<u32>>) -> Seq<Seq<u32>> {
    Seq::new(toks.len(), |i: int| padded(toks[i], max_len(toks)))
}

/// Offsets of a prompt step: nothing is cached.
pub open spec fn prompt_offsets(toks: Seq<Seq<u32>>) -> Seq<usize> {
    Seq::new(toks.len(), |i: int| 0usize)
}

/// The context range of one sequence in a prompt step: its last position
/// before the padding; an empty range for a sequence without tokens.
pub open spec fn prompt_context(row: Seq<u32>) -> (usize, usize) {
    if row.len() == 0 {
        (0usize, 0usize)
    } else {
        ((row.len() - 1) as usize, 1usize)
    }
}

/// Context ranges of a prompt step.
pub open spec fn prompt_context_lens(toks: Seq<Seq<u32>>) -> Seq<(usize, usize)> {
    Seq::new(toks.len(), |i: int| prompt_context(toks[i]))
}

/// Rows of a decode step: the most recent token of every sequence.
pub open spec fn decode_rows(toks: Seq<Seq<u32>>) -> Seq<Seq<u32>> {
    Seq::new(toks.len(), |i: int| seq![toks[i].last()])
}

/// Offsets of a decode step: everything but the most recent token is cached.
pub open spec fn decode_offsets(toks: Seq<Seq<u32>>) -> Seq<usize> {
    Seq::new(toks.len(), |i: int| (toks[i].len() - 1) as usize)
}

/// Context ranges of a decode step: the single position of each row.
pub open spec fn decode_context_lens(toks: Seq<Seq<u32>>) -> Seq<(usize, usize)> {
    Seq::new(toks.len(), |i: int| (0usize, 1usize))
}

/// The position of the row `ctx = (start, len)` whose logits are wanted.
pub open spec fn logit_position(ctx: (usize, usize)) -> int {
    ctx.0 + ctx.1 - 1
}

/// The first context range, if any, that is empty or ends beyond `seq_len`
/// positions, with the error it causes.
pub open spec fn first_bad_context(context_lens: Seq<(usize, usize)>, seq_len: nat) -> Option<
    InputError,
>
    decreases context_lens.len(),
{
    if context_lens.len() == 0 {
        None
    } else {
        match first_bad_context(context_lens.drop_last(), seq_len) {
            Some(e) => Some(e),
            None => if context_lens.last().1 == 0 {
                Some(InputError::EmptyContext)
            } else if logit_position(context_lens.last()) >= seq_len {
                Some(InputError::OutOfRange)
            } else {
                None
            },
        }
    }
}

proof fn lemma_max_len_bounds(toks: Seq<Seq<u32>>)
    ensures
        forall|i: int| 0 <= i < toks.len() ==> (#[trigger] toks[i]).len() <= max_len(toks),
        toks.len() > 0 ==> exists|i: int| 0 <= i < toks.len() && (#[trigger] toks[i]).len() == max_len(toks),
    decreases toks.len(),
{
    if toks.len() > 0 {
        let init = toks.drop_last();
        lemma_max_len_bounds(init);
        assert forall|i: int| 0 <= i < toks.len() implies (#[trigger] toks[i]).len() <= max_len(
            toks,
        ) by {
            if i < init.len() {
                assert(init[i] == toks[i]);
            }
        }
        if toks.last().len() > max_len(init) || init.len() == 0 {
            assert(toks[toks.len() - 1].len() == max_len(toks));
        } else {
            let i = choose|i: int| 0 <= i < init.len() && (#[trigger] init[i]).len() == max_len(init);
            assert(toks[i] == init[i]);
        }
    }
}

/// The width of a prompt batch is the length of its longest sequence: no
/// sequence is longer, and one is that long.
pub proof fn lemma_prompt_width(toks: Seq<Seq<u32>>)
    requires
        toks.len() > 0,
    ensures
        forall|i: int| 0 <= i < toks.len() ==> (#[trigger] toks[i]).len() <= max_len(toks),
        exists|i: int| 0 <= i < toks.len() && (#[trigger] toks[i]).len() == max_len(toks),
        forall|i: int| 0 <= i < toks.len() ==> (#[trigger] prompt_rows(toks)[i]).len() == max_len(toks),
{
    lemma_max_len_bounds(toks);
}

/// In a prompt step the logits for the next token are read at the position
/// of the token that a decode step would send: for a sequence that is not
/// empty, the context range of the prompt step points at the sequence's
/// last token, the offset of the decode step is that same position, and the
/// prompt row holds there the token of the decode row.
pub proof fn lemma_prompt_reads_where_decode_feeds(toks: Seq<Seq<u32>>, i: int)
    requires
        0 <= i < toks.len(),
        toks[i].len() > 0,
        max_len(toks) <= usize::MAX,
    ensures
        logit_position(prompt_context_lens(toks)[i]) == toks[i].len() - 1,
        decode_offsets(toks)[i] == logit_position(prompt_context_lens(toks)[i]),
        prompt_rows(toks)[i][logit_position(prompt_context_lens(toks)[i])] == decode_rows(
            toks,
        )[i][0],
{
    lemma_max_len_bounds(toks);
}

fn longest(input_toks: &Vec<Vec<u32>>) -> (m: usize)
    ensures
        m == max_len(input_toks.deep_view()),
{
    let mut m: usize = 0;
    let mut i: usize = 0;
    while i < input_toks.len()
        invariant
            i <= input_toks.len(),
            m == max_len(input_toks.deep_view().take(i as int)),
        decreases input_toks.len() - i,
    {
        proof {
            let d = input_toks.deep_view();
            assert(d.take(i + 1).drop_last() =~= d.take(i as int));
            assert(d.take(i + 1).last() == input_toks[i as int]@);
        }
        if input_toks[i].len() > m {
            m = input_toks[i].len();
        }
        i = i + 1;
    }
    proof {
        let d = input_toks.deep_view();
        assert(d.take(input_toks.len() as int) =~= d);
    }
    m
}

/// The inputs of a prompt step: every sequence in full, padded on the right
/// with `PADDING_TOKEN` to the longest sequence of the batch, with no cached
/// positions.
pub fn get_prompt_input(input_toks: &Vec<Vec<u32>>) -> (inputs: ModelInputs)
    requires
        input_toks.len() > 0,
    ensures
        inputs.rows.deep_view() == prompt_rows(input_toks.deep_view()),
        inputs.seqlen_offsets@ == prompt_offsets(input_toks.deep_view()),
        inputs.context_lens@ == prompt_context_lens(input_toks.deep_view()),
{
    let width = longest(input_toks);
    let ghost toks = input_toks.deep_view();
    let mut rows: Vec<Vec<u32>> = Vec::new();
    let mut seqlen_offsets: Vec<usize> = Vec::new();
    let mut context_lens: Vec<(usize, usize)> = Vec::new();
    let mut i: usize = 0;
    proof {
        lemma_max_len_bounds(toks);
    }
    while i < input_toks.len()
        invariant
            i <= input_toks.len(),
            toks == input_toks.deep_view(),
            width == max_len(toks),
            forall|k: int| 0 <= k < toks.len() ==> (#[trigger] toks[k]).len() <= width,
            rows.len() == i,
            seqlen_offsets.len() == i,
            context_lens.len() == i,
            forall|k: int| 0 <= k < i ==> (#[trigger] rows[k])@ == padded(toks[k], width as nat),
            forall|k: int| 0 <= k < i ==> #[trigger] seqlen_offsets[k] == 0,
            forall|k: int| 0 <= k < i ==> #[trigger] context_lens[k] == prompt_context(toks[k]),
        decreases input_toks.len() - i,
    {
        let seq = &input_toks[i];
        assert(toks[i as int] == seq@);
        let mut ctxt: Vec<u32> = Vec::new();
        let mut j: usize = 0;
        while j < seq.len()
            invariant
                j <= seq.len(),
                ctxt@ == seq@.take(j as int),
            decreases seq.len() - j,
        {
            ctxt.push(seq[j]);
            proof {
                assert(seq@.take(j + 1) =~= seq@.take(j as int).push(seq@[j as int]));
            }
            j = j + 1;
        }
        proof {
            assert(seq@.take(seq.len() as int) =~= seq@);
        }
        while ctxt.len() < width
            invariant
                seq@.len() <= ctxt.len() <= width || (ctxt.len() == seq@.len() && seq@.len() <= width),
                ctxt.len() >= seq@.len(),
                ctxt@ =~= seq@ + Seq::new((ctxt.len() - seq@.len()) as nat, |k: int| PADDING_TOKEN),
            decreases width - ctxt.len(),
        {
            ctxt.push(PADDING_TOKEN);
        }
        proof {
            assert(ctxt@ =~= padded(seq@, width as nat));
        }
        rows.push(ctxt);
        seqlen_offsets.push(0);
        if seq.len() == 0 {
            context_lens.push((0, 0));
        } else {
            context_lens.push((seq.len() - 1, 1));
        }
        i = i + 1;
    }
    proof {
        assert(rows.deep_view() =~= prompt_rows(toks)) by {
            assert forall|k: int| 0 <= k < rows.len() implies #[trigger] rows.deep_view()[k]
                == prompt_rows(toks)[k] by {
                assert(rows.deep_view()[k] == rows[k]@);
            }
        }
        assert(seqlen_offsets@ =~= prompt_offsets(toks));
        assert(context_lens@ =~= prompt_context_lens(toks));
    }
    ModelInputs { rows, seqlen_offsets, context_lens }
}

/// The inputs of a decode step. With the cache in use, only the most recent
/// token of each sequence is sent, and everything before it counts as
/// cached; every sequence must hold a token then. Without the cache the
/// whole history is sent again, exactly as in a prompt step.
pub fn get_completion_input(input_toks: &Vec<Vec<u32>>, no_kv_cache: bool) -> (inputs: ModelInputs)
    requires
        input_toks.len() > 0,
        !no_kv_cache ==> forall|i: int|
            0 <= i < input_toks.len() ==> (#[trigger] input_toks[i]).len() > 0,
    ensures
        no_kv_cache ==> inputs.rows.deep_view() == prompt_rows(input_toks.deep_view())
            && inputs.seqlen_offsets@ == prompt_offsets(input_toks.deep_view())
            && inputs.context_lens@ == prompt_context_lens(input_toks.deep_view()),
        !no_kv_cache ==> inputs.rows.deep_view() == decode_rows(input_toks.deep_view())
            && inputs.seqlen_offsets@ == decode_offsets(input_toks.deep_view())
            && inputs.context_lens@ == decode_context_lens(input_toks.deep_view()),
{
    if no_kv_cache {
        return get_prompt_input(input_toks);
    }
    let ghost toks = input_toks.deep_view();
    let mut rows: Vec<Vec<u32>> = Vec::new();
    let mut seqlen_offsets: Vec<usize> = Vec::new();
    let mut context_lens: Vec<(usize, usize)> = Vec::new();
    let mut i: usize = 0;
    while i < input_toks.len()
        invariant
            i <= input_toks.len(),
            toks == input_toks.deep_view(),
            forall|k: int| 0 <= k < input_toks.len() ==> (#[trigger] input_toks[k]).len() > 0,
            rows.len() == i,
            seqlen_offsets.len() == i,
            context_lens.len() == i,
            forall|k: int| 0 <= k < i ==> (#[trigger] rows[k])@ == seq![toks[k].last()],
            forall|k: int| 0 <= k < i ==> #[trigger] seqlen_offsets[k] == toks[k].len() - 1,
            forall|k: int| 0 <= k < i ==> #[trigger] context_lens[k] == (0usize, 1usize),
        decreases input_toks.len() - i,
    {
        let seq = &input_toks[i];
        assert(toks[i as int] == seq@);
        let start_pos = seq.len() - 1;
        let mut ctxt: Vec<u32> = Vec::new();
        ctxt.push(seq[start_pos]);
        proof {
            assert(ctxt@ =~= seq![seq@.last()]);
        }
        rows.push(ctxt);
        seqlen_offsets.push(start_pos);
        context_lens.push((0, 1));
        i = i + 1;
    }
    proof {
        assert(rows.deep_view() =~= decode_rows(toks)) by {
            assert forall|k: int| 0 <= k < rows.len() implies #[trigger] rows.deep_view()[k]
                == decode_rows(toks)[k] by {
                assert(rows.deep_view()[k] == rows[k]@);
            }
        }
        assert(seqlen_offsets@ =~= decode_offsets(toks));
        assert(context_lens@ =~= decode_context_lens(toks));
    }
    ModelInputs { rows, seqlen_offsets, context_lens }
}

/// For each sequence the position, among the `seq_len` positions of a
/// forward pass, whose logits predict its next token: the last position of
/// its context range. Fails on the first range that is empty or reaches
/// beyond the pass.
pub fn extract_logits(context_lens: &Vec<(usize, usize)>, seq_len: usize) -> (r: Result<
    Vec<usize>,
    InputError,
>)
    ensures
        match first_bad_context(context_lens@, seq_len as nat) {
            Some(e) => r == Err::<Vec<usize>, InputError>(e),
            None => r is Ok && r->Ok_0.len() == context_lens.len() && forall|i: int|
                0 <= i < context_lens.len() ==> #[trigger] r->Ok_0[i] == logit_position(
                    context_lens[i],
                ),
        },
{
    let mut positions: Vec<usize> = Vec::new();
    let mut i: usize = 0;
    while i < context_lens.len()
        invariant
            i <= context_lens.len(),
            first_bad_context(context_lens@.take(i as int), seq_len as nat) is None,
            positions.len() == i,
            forall|k: int| 0 <= k < i ==> #[trigger] positions[k] == logit_position(context_lens[k]),
        decreases context_lens.len() - i,
    {
        let (start, len) = context_lens[i];
        proof {
            assert(context_lens@.take(i + 1).drop_last() =~= context_lens@.take(i as int));
            assert(context_lens@.take(i + 1).last() == context_lens[i as int]);
        }
        if len == 0 {
            proof {
                lemma_bad_context_stays(context_lens@, seq_len as nat, i + 1);
            }
            return Err(InputError::EmptyContext);
        }
        if start >= seq_len || len - 1 >= seq_len - start {
            proof {
                lemma_bad_context_stays(context_lens@, seq_len as nat, i + 1);
            }
            return Err(InputError::OutOfRange);
        }
        positions.push(start + (len - 1));
        i = i + 1;
    }
    proof {
        assert(context_lens@.take(context_lens.len() as int) =~= context_lens@);
    }
    Ok(positions)
}

proof fn lemma_bad_context_stays(context_lens: Seq<(usize, usize)>, seq_len: nat, n: int)
    requires
        0 <= n <= context_lens.len(),
        first_bad_context(context_lens.take(n), seq_len) is Some,
    ensures
        first_bad_context(context_lens, seq_len) == first_bad_context(context_lens.take(n), seq_len),
    decreases context_lens.len() - n,
{
    if n < context_lens.len() {
        assert(context_lens.take(n + 1).drop_last() =~= context_lens.take(n));
        lemma_bad_context_stays(context_lens, seq_len, n + 1);
    } else {
        assert(context_lens.take(n) =~= context_lens);
    }
}

} // verus!
