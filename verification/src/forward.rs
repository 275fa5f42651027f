//! The order of the operations of one forward pass.
//!
//! The tensors are worked on elsewhere; here it is laid down what is done to
//! them and in which order: the embedding, then block after block, then the
//! final norm and the output head. A block normalizes its input, lets every
//! chunk attend over every cache and adds up what comes of it, joins the
//! chunks, adds the block's input to the attention output, and adds to that
//! the feed-forward network's output on its normalized value.

use vstd::prelude::*;
use crate::chunking::AttentionStep;

verus! {

/// One operation of a forward pass.
#[derive(Clone, Copy, Debug, PartialEq, Eq, Structural)]
pub enum ForwardOp {
    /// Embed the tokens on the primary device.
    Embed,
    /// Normalize the input of the block.
    InputNorm { block: usize },
    /// Stage the step's cache on the chunk's device, attend the normalized
    /// chunk over it, add the result to the chunk's sum (the first visit of a
    /// chunk starts the sum), and bring the cache back to where it lives.
    Attend { block: usize, step: AttentionStep },
    /// Join the sums of the chunks along the sequence axis, on the primary
    /// device.
    Concat { block: usize },
    /// Add the block's input to the attention output.
    AttentionResidual { block: usize },
    /// Normalize the sum.
    PostAttentionNorm { block: usize },
    /// Run the feed-forward network on the normalized sum.
    Mlp { block: usize },
    /// Add the sum to the feed-forward output.
    MlpResidual { block: usize },
    /// Normalize the output of the last block.
    FinalNorm,
    /// Project to the vocabulary.
    LmHead,
    /// Pick the row of logits of each sequence.
    ExtractLogits,
}

/// The attention calls of a block, in the order of the steps.
pub open spec fn attends(block: usize, steps: Seq<AttentionStep>) -> Seq<ForwardOp> {
    Seq::new(steps.len(), |k: int| ForwardOp::Attend { block, step: steps[k] })
}

/// What follows the attention calls of a block.
pub open spec fn block_tail(block: usize) -> Seq<ForwardOp> {
    seq![
        ForwardOp::Concat { block },
        ForwardOp::AttentionResidual { block },
        ForwardOp::PostAttentionNorm { block },
        ForwardOp::Mlp { block },
        ForwardOp::MlpResidual { block },
    ]
}

/// The operations of one block.
pub open spec fn block_program(block: usize, steps: Seq<AttentionStep>) -> Seq<ForwardOp> {
    seq![ForwardOp::InputNorm { block }] + attends(block, steps) + block_tail(block)
}

/// The operations of the first `num_layers` blocks.
pub open spec fn blocks_program(num_layers: nat, steps: Seq<AttentionStep>) -> Seq<ForwardOp>
    decreases num_layers,
{
    if num_layers == 0 {
        Seq::empty()
    } else {
        blocks_program((num_layers - 1) as nat, steps) + block_program(
            (num_layers - 1) as usize,
            steps,
        )
    }
}

/// What follows the last block.
pub open spec fn pass_tail() -> Seq<ForwardOp> {
    seq![ForwardOp::FinalNorm, ForwardOp::LmHead, ForwardOp::ExtractLogits]
}

/// The operations of a forward pass through `num_layers` blocks, each with
/// the same attention steps.
pub open spec fn forward_program(num_layers: nat, steps: Seq<AttentionStep>) -> Seq<ForwardOp> {
    seq![ForwardOp::Embed] + blocks_program(num_layers, steps) + pass_tail()
}

/// The stage of a pass that an operation belongs to: the embedding first,
/// then the blocks in their order, then what follows the last of
/// `num_layers` blocks.
pub open spec fn stage(op: ForwardOp, num_layers: nat) -> nat {
    match op {
        ForwardOp::Embed => 0,
        ForwardOp::InputNorm { block } => block as nat + 1,
        ForwardOp::Attend { block, .. } => block as nat + 1,
        ForwardOp::Concat { block } => block as nat + 1,
        ForwardOp::AttentionResidual { block } => block as nat + 1,
        ForwardOp::PostAttentionNorm { block } => block as nat + 1,
        ForwardOp::Mlp { block } => block as nat + 1,
        ForwardOp::MlpResidual { block } => block as nat + 1,
        ForwardOp::FinalNorm => num_layers + 1,
        ForwardOp::LmHead => num_layers + 1,
        ForwardOp::ExtractLogits => num_layers + 1,
    }
}

/// The place of an operation within its stage.
pub open spec fn phase(op: ForwardOp) -> nat {
    match op {
        ForwardOp::Embed => 0,
        ForwardOp::InputNorm { .. } => 0,
        ForwardOp::Attend { .. } => 1,
        ForwardOp::Concat { .. } => 2,
        ForwardOp::AttentionResidual { .. } => 3,
        ForwardOp::PostAttentionNorm { .. } => 4,
        ForwardOp::Mlp { .. } => 5,
        ForwardOp::MlpResidual { .. } => 6,
        ForwardOp::FinalNorm => 0,
        ForwardOp::LmHead => 1,
        ForwardOp::ExtractLogits => 2,
    }
}

/// Whether `a` may run before `b`: its stage is earlier, or it is the same
/// stage and its phase is not later.
pub open spec fn in_order(a: ForwardOp, b: ForwardOp, num_layers: nat) -> bool {
    stage(a, num_layers) < stage(b, num_layers) || (stage(a, num_layers) == stage(b, num_layers)
        && phase(a) <= phase(b))
}

proof fn lemma_block_in_order(block: usize, steps: Seq<AttentionStep>, num_layers: nat)
    ensures
        block_program(block, steps).len() == steps.len() + 6,
        forall|i: int|
            0 <= i < block_program(block, steps).len() ==> stage(
                #[trigger] block_program(block, steps)[i],
                num_layers,
            ) == block + 1,
        forall|i: int, j: int|
            0 <= i <= j < block_program(block, steps).len() ==> phase(
                #[trigger] block_program(block, steps)[i],
            ) <= phase(#[trigger] block_program(block, steps)[j]),
        forall|k: int|
            0 <= k < steps.len() ==> #[trigger] block_program(block, steps)[k + 1]
                == (ForwardOp::Attend { block, step: steps[k] }),
{
    let p = block_program(block, steps);
    let n = steps.len() as int;
    assert forall|i: int| 0 <= i < p.len() implies stage(#[trigger] p[i], num_layers) == block + 1
        && phase(p[i]) == (if i == 0 {
        0int
    } else if i <= n {
        1int
    } else {
        i - n + 1
    }) by {
        if i == 0 {
        } else if i <= n {
            assert(p[i] == attends(block, steps)[i - 1]);
        } else {
            assert(p[i] == block_tail(block)[i - n - 1]);
        }
    }
    assert forall|k: int| 0 <= k < steps.len() implies #[trigger] p[k + 1] == (ForwardOp::Attend {
        block,
        step: steps[k],
    }) by {
        assert(p[k + 1] == attends(block, steps)[k]);
    }
}

proof fn lemma_blocks_in_order(num_layers: nat, steps: Seq<AttentionStep>, total: nat)
    requires
        num_layers <= total,
        total <= usize::MAX,
    ensures
        blocks_program(num_layers, steps).len() == num_layers * (steps.len() + 6),
        forall|i: int|
            0 <= i < blocks_program(num_layers, steps).len() ==> 1 <= stage(
                #[trigger] blocks_program(num_layers, steps)[i],
                total,
            ) <= num_layers,
        forall|i: int, j: int|
            0 <= i <= j < blocks_program(num_layers, steps).len() ==> in_order(
                #[trigger] blocks_program(num_layers, steps)[i],
                #[trigger] blocks_program(num_layers, steps)[j],
                total,
            ),
    decreases num_layers,
{
    if num_layers > 0 {
        let before = blocks_program((num_layers - 1) as nat, steps);
        let last = block_program((num_layers - 1) as usize, steps);
        let all = blocks_program(num_layers, steps);
        lemma_blocks_in_order((num_layers - 1) as nat, steps, total);
        lemma_block_in_order((num_layers - 1) as usize, steps, total);
        assert(num_layers * (steps.len() + 6) == (num_layers - 1) * (steps.len() + 6) + (
        steps.len() + 6)) by (nonlinear_arith)
            requires
                num_layers >= 1,
        ;
        assert forall|i: int| 0 <= i < all.len() implies 1 <= stage(#[trigger] all[i], total)
            <= num_layers by {
            if i < before.len() {
                assert(all[i] == before[i]);
            } else {
                assert(all[i] == last[i - before.len()]);
            }
        }
        assert forall|i: int, j: int| 0 <= i <= j < all.len() implies in_order(
            #[trigger] all[i],
            #[trigger] all[j],
            total,
        ) by {
            if j < before.len() {
                assert(all[i] == before[i] && all[j] == before[j]);
            } else if i < before.len() {
                assert(all[i] == before[i]);
                assert(all[j] == last[j - before.len()]);
            } else {
                assert(all[i] == last[i - before.len()]);
                assert(all[j] == last[j - before.len()]);
            }
        }
    } else {
        assert(0 * (steps.len() + 6) == 0) by (nonlinear_arith);
    }
}

/// The operations of a pass come in order. Of two operations of a pass, the
/// earlier one belongs to an earlier stage, or to the same stage and not to
/// a later phase of it: the embedding comes before every block, a block is
/// done with before the next one starts, within a block the attention calls
/// all come before the chunks are joined, then the two residual sums with
/// the feed-forward network between them, and the final norm and the output
/// head come after the last block.
pub proof fn lemma_pass_is_in_order(num_layers: nat, steps: Seq<AttentionStep>, i: int, j: int)
    requires
        num_layers <= usize::MAX,
        0 <= i <= j < forward_program(num_layers, steps).len(),
    ensures
        in_order(
            forward_program(num_layers, steps)[i],
            forward_program(num_layers, steps)[j],
            num_layers,
        ),
        forward_program(num_layers, steps).len() == num_layers * (steps.len() + 6) + 4,
{
    let blocks = blocks_program(num_layers, steps);
    let p = forward_program(num_layers, steps);
    lemma_blocks_in_order(num_layers, steps, num_layers);
    let n = blocks.len() as int;
    assert forall|k: int| 0 <= k < p.len() implies (#[trigger] p[k]) == (if k == 0 {
        ForwardOp::Embed
    } else if k <= n {
        blocks[k - 1]
    } else {
        pass_tail()[k - n - 1]
    }) by {}
    if 1 <= i && j <= n {
        assert(in_order(blocks[i - 1], blocks[j - 1], num_layers));
    } else if 1 <= i && i <= n {
        assert(1 <= stage(blocks[i - 1], num_layers) <= num_layers);
    } else if 1 <= j && j <= n {
        assert(1 <= stage(blocks[j - 1], num_layers) <= num_layers);
    }
}

/// Within a block the attention calls run in the order of the steps: chunk
/// by chunk, and for each chunk cache by cache.
pub proof fn lemma_attends_follow_steps(block: usize, steps: Seq<AttentionStep>, k: int)
    requires
        0 <= k < steps.len(),
    ensures
        block_program(block, steps)[k + 1] == (ForwardOp::Attend { block, step: steps[k] }),
{
    lemma_block_in_order(block, steps, 0);
}

/// The operations of a forward pass through `num_layers` blocks with the
/// given attention steps per block, in the order in which they run. Nothing
/// if their number does not fit the machine word.
pub fn plan_forward(num_layers: usize, steps: &Vec<AttentionStep>) -> (ops: Option<Vec<ForwardOp>>)
    ensures
        match ops {
            Some(program) => program@ == forward_program(num_layers as nat, steps@),
            None => num_layers * (steps@.len() + 6) + 4 > usize::MAX,
        },
{
    let per_block = match steps.len().checked_add(6) {
        Some(n) => n,
        None => {
            proof {
                assert(num_layers * (steps@.len() + 6) + 4 > usize::MAX || num_layers == 0)
                    by (nonlinear_arith)
                    requires
                        steps@.len() + 6 > usize::MAX,
                        num_layers >= 0,
                ;
            }
            if num_layers == 0 {
                let mut ops: Vec<ForwardOp> = Vec::new();
                ops.push(ForwardOp::Embed);
                ops.push(ForwardOp::FinalNorm);
                ops.push(ForwardOp::LmHead);
                ops.push(ForwardOp::ExtractLogits);
                proof {
                    assert(ops@ =~= forward_program(0, steps@));
                }
                return Some(ops);
            }
            return None;
        },
    };
    let fits = match num_layers.checked_mul(per_block) {
        Some(n) => n.checked_add(4).is_some(),
        None => false,
    };
    if !fits {
        return None;
    }
    let mut ops: Vec<ForwardOp> = Vec::new();
    ops.push(ForwardOp::Embed);
    let mut block: usize = 0;
    while block < num_layers
        invariant
            block <= num_layers,
            ops@ == seq![ForwardOp::Embed] + blocks_program(block as nat, steps@),
        decreases num_layers - block,
    {
        let ghost before = ops@;
        ops.push(ForwardOp::InputNorm { block });
        let mut k: usize = 0;
        while k < steps.len()
            invariant
                k <= steps.len(),
                ops@ == before + seq![ForwardOp::InputNorm { block }] + attends(block, steps@).take(
                    k as int,
                ),
            decreases steps.len() - k,
        {
            ops.push(ForwardOp::Attend { block, step: steps[k] });
            proof {
                assert(attends(block, steps@).take(k + 1) =~= attends(block, steps@).take(
                    k as int,
                ).push(ForwardOp::Attend { block, step: steps@[k as int] }));
            }
            k = k + 1;
        }
        ops.push(ForwardOp::Concat { block });
        ops.push(ForwardOp::AttentionResidual { block });
        ops.push(ForwardOp::PostAttentionNorm { block });
        ops.push(ForwardOp::Mlp { block });
        ops.push(ForwardOp::MlpResidual { block });
        proof {
            assert(attends(block, steps@).take(steps@.len() as int) =~= attends(block, steps@));
            assert(ops@ =~= before + block_program(block, steps@));
            assert(before + block_program(block, steps@) =~= seq![ForwardOp::Embed]
                + blocks_program((block + 1) as nat, steps@));
        }
        block = block + 1;
    }
    ops.push(ForwardOp::FinalNorm);
    ops.push(ForwardOp::LmHead);
    ops.push(ForwardOp::ExtractLogits);
    proof {
        assert(ops@ =~= forward_program(num_layers as nat, steps@));
    }
    Some(ops)
}

} // verus!
