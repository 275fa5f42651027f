//! The discrete side of sampling: how often a token occurred, for the
//! repetition penalties, and which token greedy sampling picks under a
//! constraint.
//!
//! The arithmetic on logits is done where the logits are. It hands over a
//! ranking: the token ids ordered by falling logit, after biases and
//! penalties.

use vstd::prelude::*;

verus! {

/// How often `token` occurs in `history`.
pub open spec fn count_of(history: Seq<u32>, token: u32) -> nat
    decreases history.len(),
{
    if history.len() == 0 {
        0
    } else {
        count_of(history.drop_last(), token) + if history.last() == token {
            1nat
        } else {
            0nat
        }
    }
}

/// Whether the constraint allows `token`: a token without an entry in the
/// mask is not allowed.
pub open spec fn is_allowed(allowed: Seq<bool>, token: u32) -> bool {
    token < allowed.len() && allowed[token as int]
}

/// The place in `ranking` of the best token that is allowed, among the
/// first `n` places.
pub open spec fn best_allowed(ranking: Seq<u32>, allowed: Seq<bool>, n: nat) -> Option<int>
    decreases n,
{
    if n == 0 {
        None
    } else {
        match best_allowed(ranking, allowed, (n - 1) as nat) {
            Some(i) => Some(i),
            None => if is_allowed(allowed, ranking[n - 1]) {
                Some(n - 1)
            } else {
                None
            },
        }
    }
}

/// The pick is the best-ranked token among the allowed ones: it is allowed,
/// and no token ranked before it is. There is no pick only if no ranked
/// token is allowed.
pub proof fn lemma_best_allowed(ranking: Seq<u32>, allowed: Seq<bool>, n: nat)
    requires
        n <= ranking.len(),
    ensures
        match best_allowed(ranking, allowed, n) {
            Some(i) => 0 <= i < n && is_allowed(allowed, ranking[i]) && forall|j: int|
                0 <= j < i ==> !is_allowed(allowed, #[trigger] ranking[j]),
            None => forall|j: int| 0 <= j < n ==> !is_allowed(allowed, #[trigger] ranking[j]),
        },
    decreases n,
{
    if n > 0 {
        lemma_best_allowed(ranking, allowed, (n - 1) as nat);
    }
}

/// A constraint that allows a single token leaves no choice: if that token
/// is ranked at all, it is the pick, wherever it is ranked.
pub proof fn lemma_single_allowed_token_is_picked(
    ranking: Seq<u32>,
    allowed: Seq<bool>,
    only: u32,
)
    requires
        is_allowed(allowed, only),
        forall|t: u32| is_allowed(allowed, t) ==> t == only,
        ranking.contains(only),
    ensures
        best_allowed(ranking, allowed, ranking.len()) matches Some(i) && ranking[i] == only,
{
    lemma_best_allowed(ranking, allowed, ranking.len());
    let k = choose|k: int| 0 <= k < ranking.len() && ranking[k] == only;
    assert(is_allowed(allowed, ranking[k]));
}

/// For every token id below `vocab_size`, how often it occurs in `history`.
pub fn token_counts(history: &Vec<u32>, vocab_size: usize) -> (counts: Vec<usize>)
    ensures
        counts.len() == vocab_size,
        forall|t: int|
            0 <= t < vocab_size && t <= u32::MAX ==> #[trigger] counts[t] == count_of(
                history@,
                t as u32,
            ),
{
    let mut counts: Vec<usize> = Vec::new();
    let mut t: usize = 0;
    while t < vocab_size
        invariant
            t <= vocab_size,
            counts.len() == t,
            forall|k: int| 0 <= k < t ==> #[trigger] counts@[k] == 0,
        decreases vocab_size - t,
    {
        counts.push(0);
        t = t + 1;
    }
    let mut i: usize = 0;
    proof {
        assert(history@.take(0).len() == 0);
    }
    while i < history.len()
        invariant
            i <= history.len(),
            counts.len() == vocab_size,
            forall|k: int|
                0 <= k < vocab_size && k <= u32::MAX ==> #[trigger] counts@[k] == count_of(
                    history@.take(i as int),
                    k as u32,
                ),
        decreases history.len() - i,
    {
        let token = history[i];
        proof {
            assert(history@.take(i + 1).drop_last() =~= history@.take(i as int));
            assert(history@.take(i + 1).last() == token);
            lemma_count_bounded(history@.take(i + 1), token);
        }
        if (token as usize) < vocab_size {
            let seen = counts[token as usize];
            counts.set(token as usize, seen + 1);
        }
        i = i + 1;
    }
    proof {
        assert(history@.take(history.len() as int) =~= history@);
    }
    counts
}

proof fn lemma_count_bounded(history: Seq<u32>, token: u32)
    ensures
        count_of(history, token) <= history.len(),
    decreases history.len(),
{
    if history.len() > 0 {
        lemma_count_bounded(history.drop_last(), token);
    }
}

/// The token that greedy sampling picks: the best-ranked token that the
/// constraint allows. `allowed` has an entry per token id; nothing is picked
/// when no ranked token is allowed.
pub fn greedy_pick(ranking: &Vec<u32>, allowed: &Vec<bool>) -> (pick: Option<u32>)
    ensures
        match best_allowed(ranking@, allowed@, ranking@.len()) {
            Some(i) => pick == Some(ranking@[i]),
            None => pick is None,
        },
{
    let mut i: usize = 0;
    while i < ranking.len()
        invariant
            i <= ranking.len(),
            best_allowed(ranking@, allowed@, i as nat) is None,
        decreases ranking.len() - i,
    {
        let token = ranking[i];
        if (token as usize) < allowed.len() && allowed[token as usize] {
            proof {
                lemma_pick_stays(ranking@, allowed@, (i + 1) as nat, ranking@.len());
            }
            return Some(token);
        }
        i = i + 1;
    }
    None
}

proof fn lemma_pick_stays(ranking: Seq<u32>, allowed: Seq<bool>, n: nat, m: nat)
    requires
        n <= m,
        best_allowed(ranking, allowed, n) is Some,
    ensures
        best_allowed(ranking, allowed, m) == best_allowed(ranking, allowed, n),
    decreases m - n,
{
    if n < m {
        lemma_pick_stays(ranking, allowed, n, (m - 1) as nat);
    }
}

/// The tokens that stay after keeping the `k` best-ranked ones; all of them
/// when `k` is zero.
pub fn keep_top_k(ranking: &Vec<u32>, k: usize) -> (kept: Vec<u32>)
    ensures
        kept@ == if k == 0 || k >= ranking@.len() {
            ranking@
        } else {
            ranking@.take(k as int)
        },
{
    let n = if k == 0 || k >= ranking.len() {
        ranking.len()
    } else {
        k
    };
    let mut kept: Vec<u32> = Vec::new();
    let mut i: usize = 0;
    while i < n
        invariant
            i <= n <= ranking.len(),
            kept@ == ranking@.take(i as int),
        decreases n - i,
    {
        kept.push(ranking[i]);
        proof {
            assert(ranking@.take(i + 1) =~= ranking@.take(i as int).push(ranking@[i as int]));
        }
        i = i + 1;
    }
    proof {
        assert(ranking@.take(ranking.len() as int) =~= ranking@);
    }
    kept
}

} // verus!
