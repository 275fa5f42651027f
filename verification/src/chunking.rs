//! Splitting the sequence axis across the devices of the tensor-parallel
//! fan-out, and the order in which each chunk visits the per-device caches.
//!
//! A forward pass over `seq_len` positions on `fan_out` devices cuts the
//! sequence axis into consecutive chunks of `ceil(seq_len / fan_out)`
//! positions. Chunks are handed out while positions remain, so the last chunk
//! holds what is left over and devices beyond the last chunk stay unused.
//! Chunk `i` runs on device `i`.

use vstd::prelude::*;
use vstd::arithmetic::div_mod::{lemma_fundamental_div_mod, lemma_fundamental_div_mod_converse};

verus! {

/// A half-open range `[start, end)` of sequence positions and the device it
/// is placed on, as an index into the fan-out.
#[derive(Clone, Copy, Debug, PartialEq, Eq, Structural)]
pub struct Chunk {
    pub start: usize,
    pub end: usize,
    pub device: usize,
}

/// One visit of a chunk to a per-device cache within a block.
#[derive(Clone, Copy, Debug, PartialEq, Eq, Structural)]
pub struct AttentionStep {
    /// The chunk that attends.
    pub chunk: usize,
    /// How many caches this chunk has visited before this step.
    pub rotation: usize,
    /// The cache visited by this step.
    pub cache: usize,
}

/// Positions per chunk: `ceil(seq_len / fan_out)`.
///
/// A plan cannot both have chunks of this size and always have `fan_out` of
/// them: five positions on four devices give chunks of two, and after two,
/// two and one positions nothing is left for a fourth. The size is kept and
/// the number of chunks gives way: a plan has `ceil(seq_len / chunk_size)`
/// chunks, the last one with what is left, and the devices behind it stay
/// unused, as they do when the sequence is shorter than the fan-out.
pub open spec fn chunk_size(seq_len: nat, fan_out: nat) -> nat {
    if fan_out == 0 {
        0
    } else if seq_len % fan_out == 0 {
        seq_len / fan_out
    } else {
        seq_len / fan_out + 1
    }
}

/// Number of chunks produced: `ceil(seq_len / chunk_size)`.
pub open spec fn chunk_count(seq_len: nat, fan_out: nat) -> nat {
    let c = chunk_size(seq_len, fan_out);
    if c == 0 {
        0
    } else if seq_len % c == 0 {
        seq_len / c
    } else {
        seq_len / c + 1
    }
}

/// First position of chunk `i`.
pub open spec fn chunk_start(seq_len: nat, fan_out: nat, i: nat) -> nat {
    i * chunk_size(seq_len, fan_out)
}

/// One past the last position of chunk `i`.
pub open spec fn chunk_end(seq_len: nat, fan_out: nat, i: nat) -> nat {
    let e = (i + 1) * chunk_size(seq_len, fan_out);
    if e <= seq_len {
        e
    } else {
        seq_len
    }
}

/// The chunk with index `i` of the plan for `seq_len` positions.
pub open spec fn chunk_at(seq_len: nat, fan_out: nat, i: nat) -> Chunk {
    Chunk {
        start: chunk_start(seq_len, fan_out, i) as usize,
        end: chunk_end(seq_len, fan_out, i) as usize,
        device: i as usize,
    }
}

/// The whole plan, in device order.
pub open spec fn chunk_plan(seq_len: nat, fan_out: nat) -> Seq<Chunk> {
    Seq::new(chunk_count(seq_len, fan_out), |i: int| chunk_at(seq_len, fan_out, i as nat))
}

/// The cache visited by chunk `chunk` on its `rotation`-th visit.
pub open spec fn rotated_cache(chunk: nat, rotation: nat, num_caches: nat) -> nat {
    (chunk + rotation) % num_caches
}

/// Step `k` of a block: chunks in order, and for each chunk the rotations in
/// order.
pub open spec fn step_at(k: nat, num_caches: nat) -> AttentionStep {
    AttentionStep {
        chunk: (k / num_caches) as usize,
        rotation: (k % num_caches) as usize,
        cache: rotated_cache(k / num_caches, k % num_caches, num_caches) as usize,
    }
}

/// All attention steps of one block.
pub open spec fn block_schedule(num_chunks: nat, num_caches: nat) -> Seq<AttentionStep> {
    Seq::new(num_chunks * num_caches, |k: int| step_at(k as nat, num_caches))
}

/// Number of positions of chunk `i`.
pub open spec fn chunk_len(seq_len: nat, fan_out: nat, i: nat) -> nat {
    (chunk_end(seq_len, fan_out, i) - chunk_start(seq_len, fan_out, i)) as nat
}

/// Number of positions of the first `m` chunks together.
pub open spec fn chunk_len_sum(seq_len: nat, fan_out: nat, m: nat) -> nat
    decreases m,
{
    if m == 0 {
        0
    } else {
        chunk_len_sum(seq_len, fan_out, (m - 1) as nat) + chunk_len(
            seq_len,
            fan_out,
            (m - 1) as nat,
        )
    }
}

/// Number of positions that the first `k` steps of a block append to
/// `cache`, when a step appends the positions of its chunk to the cache it
/// visits.
pub open spec fn appended_to(
    seq_len: nat,
    fan_out: nat,
    num_caches: nat,
    cache: nat,
    k: nat,
) -> nat
    decreases k,
{
    if k == 0 {
        0
    } else {
        let j = (k - 1) as nat;
        appended_to(seq_len, fan_out, num_caches, cache, j) + if rotated_cache(
            j / num_caches,
            j % num_caches,
            num_caches,
        ) == cache {
            chunk_len(seq_len, fan_out, j / num_caches)
        } else {
            0
        }
    }
}

/// The rotation at which chunk `chunk` visits `cache`.
pub open spec fn visit_rotation(chunk: nat, cache: nat, num_caches: nat) -> nat {
    let base = chunk % num_caches;
    if cache >= base {
        (cache - base) as nat
    } else {
        (cache + num_caches - base) as nat
    }
}

proof fn lemma_visit_rotation(chunk: nat, cache: nat, num_caches: nat, r: nat)
    requires
        cache < num_caches,
        r < num_caches,
    ensures
        visit_rotation(chunk, cache, num_caches) < num_caches,
        rotated_cache(chunk, r, num_caches) == cache <==> r == visit_rotation(
            chunk,
            cache,
            num_caches,
        ),
{
    let n = num_caches as int;
    let base = chunk as int % n;
    let q = chunk as int / n;
    lemma_fundamental_div_mod(chunk as int, n);
    assert(n * q == q * n) by (nonlinear_arith);
    if base + r < n {
        lemma_fundamental_div_mod_converse(chunk as int + r as int, n, q, base + r);
    } else {
        assert(chunk + r == (q + 1) * n + (base + r - n)) by (nonlinear_arith)
            requires
                chunk == q * n + base,
        ;
        lemma_fundamental_div_mod_converse(chunk as int + r as int, n, q + 1, base + r - n);
    }
}

proof fn lemma_round_appends_chunk(
    seq_len: nat,
    fan_out: nat,
    num_caches: nat,
    cache: nat,
    chunk: nat,
    r: nat,
)
    requires
        cache < num_caches,
        r <= num_caches,
    ensures
        appended_to(seq_len, fan_out, num_caches, cache, chunk * num_caches + r) == appended_to(
            seq_len,
            fan_out,
            num_caches,
            cache,
            chunk * num_caches,
        ) + if r > visit_rotation(chunk, cache, num_caches) {
            chunk_len(seq_len, fan_out, chunk)
        } else {
            0
        },
    decreases r,
{
    if r > 0 {
        let j = (chunk * num_caches + r - 1) as nat;
        lemma_round_appends_chunk(seq_len, fan_out, num_caches, cache, chunk, (r - 1) as nat);
        lemma_fundamental_div_mod_converse(
            j as int,
            num_caches as int,
            chunk as int,
            r as int - 1,
        );
        lemma_visit_rotation(chunk, cache, num_caches, (r - 1) as nat);
    }
}

proof fn lemma_chunk_lens_add_up(seq_len: nat, fan_out: nat, m: nat)
    requires
        fan_out > 0,
        m <= chunk_count(seq_len, fan_out),
    ensures
        chunk_len_sum(seq_len, fan_out, m) == if m == chunk_count(seq_len, fan_out) {
            seq_len
        } else {
            chunk_start(seq_len, fan_out, m)
        },
    decreases m,
{
    lemma_chunks_tile(seq_len, fan_out);
    if m > 0 {
        lemma_chunk_lens_add_up(seq_len, fan_out, (m - 1) as nat);
        let i = (m - 1) as nat;
        assert(chunk_start(seq_len, fan_out, i) < chunk_end(seq_len, fan_out, i));
        if m < chunk_count(seq_len, fan_out) {
            assert(chunk_end(seq_len, fan_out, i) == chunk_start(seq_len, fan_out, i + 1));
        }
    } else {
        assert(0 * chunk_size(seq_len, fan_out) == 0) by (nonlinear_arith);
    }
}

proof fn lemma_rounds_append_chunks(
    seq_len: nat,
    fan_out: nat,
    num_caches: nat,
    cache: nat,
    m: nat,
)
    requires
        cache < num_caches,
    ensures
        appended_to(seq_len, fan_out, num_caches, cache, m * num_caches) == chunk_len_sum(
            seq_len,
            fan_out,
            m,
        ),
    decreases m,
{
    if m > 0 {
        let c = (m - 1) as nat;
        lemma_rounds_append_chunks(seq_len, fan_out, num_caches, cache, c);
        lemma_round_appends_chunk(seq_len, fan_out, num_caches, cache, c, num_caches);
        lemma_visit_rotation(c, cache, num_caches, 0);
        assert(c * num_caches + num_caches == m * num_caches) by (nonlinear_arith)
            requires
                c + 1 == m,
        ;
    } else {
        assert(0 * num_caches == 0) by (nonlinear_arith);
    }
}

/// Every cache takes in the whole sequence. In one block, in which every
/// step appends the positions of its chunk to the cache it visits, each
/// cache is appended exactly as many positions as the sequence has: every
/// chunk reaches every cache once, and the chunks tile the sequence.
pub proof fn lemma_block_fills_every_cache(
    seq_len: nat,
    fan_out: nat,
    num_caches: nat,
    cache: nat,
)
    requires
        fan_out > 0,
        cache < num_caches,
    ensures
        appended_to(
            seq_len,
            fan_out,
            num_caches,
            cache,
            block_schedule(chunk_count(seq_len, fan_out), num_caches).len(),
        ) == seq_len,
{
    let m = chunk_count(seq_len, fan_out);
    lemma_rounds_append_chunks(seq_len, fan_out, num_caches, cache, m);
    lemma_chunk_lens_add_up(seq_len, fan_out, m);
    assert(m * num_caches >= 0) by (nonlinear_arith)
        requires
            m >= 0,
            num_caches >= 0,
    ;
}

proof fn lemma_size_covers(seq_len: nat, fan_out: nat)
    requires
        fan_out > 0,
    ensures
        chunk_size(seq_len, fan_out) * fan_out >= seq_len,
        seq_len > 0 ==> (chunk_size(seq_len, fan_out) - 1) * fan_out < seq_len,
        seq_len > 0 ==> chunk_size(seq_len, fan_out) >= 1,
        seq_len == 0 ==> chunk_size(seq_len, fan_out) == 0,
        chunk_size(seq_len, fan_out) <= seq_len,
{
    let q = seq_len as int / fan_out as int;
    let r = seq_len as int % fan_out as int;
    lemma_fundamental_div_mod(seq_len as int, fan_out as int);
    assert(seq_len == fan_out * q + r);
    assert(fan_out * q == q * fan_out) by (nonlinear_arith);
    assert((q + 1) * fan_out == q * fan_out + fan_out) by (nonlinear_arith);
    assert((q - 1) * fan_out == q * fan_out - fan_out) by (nonlinear_arith);
    assert(q >= 0) by (nonlinear_arith)
        requires
            seq_len == fan_out * q + r,
            0 <= r < fan_out,
            seq_len >= 0,
    ;
    assert(q <= seq_len) by (nonlinear_arith)
        requires
            seq_len == fan_out * q + r,
            0 <= r,
            fan_out >= 1,
            q >= 0,
    ;
    if r != 0 {
        assert(q + 1 <= seq_len) by (nonlinear_arith)
            requires
                seq_len == fan_out * q + r,
                0 < r < fan_out,
                q >= 0,
        ;
    }
}

/// The chunks of a plan tile the sequence axis.
///
/// For a fan-out of at least one device: there are at most `fan_out` chunks;
/// the first starts at position zero, each next one starts where the one
/// before ends, and the last ends at `seq_len`; no chunk is empty, every
/// chunk but the last holds exactly `chunk_size` positions and the last holds
/// at most that many. When the sequence is shorter than the fan-out, there is
/// one chunk per position; when the fan-out divides the length of the
/// sequence, every device gets a chunk.
pub proof fn lemma_chunks_tile(seq_len: nat, fan_out: nat)
    requires
        fan_out > 0,
    ensures
        chunk_count(seq_len, fan_out) <= fan_out,
        chunk_count(seq_len, fan_out) <= seq_len,
        seq_len > 0 ==> chunk_count(seq_len, fan_out) > 0,
        seq_len > 0 ==> chunk_start(seq_len, fan_out, 0) == 0,
        seq_len > 0 ==> chunk_end(
            seq_len,
            fan_out,
            (chunk_count(seq_len, fan_out) - 1) as nat,
        ) == seq_len,
        forall|i: nat|
            i < chunk_count(seq_len, fan_out) ==> #[trigger] chunk_start(seq_len, fan_out, i)
                < chunk_end(seq_len, fan_out, i) <= seq_len,
        forall|i: nat|
            i + 1 < chunk_count(seq_len, fan_out) ==> #[trigger] chunk_end(seq_len, fan_out, i)
                == chunk_start(seq_len, fan_out, i + 1),
        forall|i: nat|
            i + 1 < chunk_count(seq_len, fan_out) ==> #[trigger] chunk_end(seq_len, fan_out, i)
                - chunk_start(seq_len, fan_out, i) == chunk_size(seq_len, fan_out),
        forall|i: nat|
            i < chunk_count(seq_len, fan_out) ==> #[trigger] chunk_end(seq_len, fan_out, i)
                - chunk_start(seq_len, fan_out, i) <= chunk_size(seq_len, fan_out),
        seq_len < fan_out ==> chunk_count(seq_len, fan_out) == seq_len,
        seq_len < fan_out && seq_len > 0 ==> chunk_size(seq_len, fan_out) == 1,
        seq_len > 0 && seq_len % fan_out == 0 ==> chunk_count(seq_len, fan_out) == fan_out,
{
    lemma_size_covers(seq_len, fan_out);
    let c = chunk_size(seq_len, fan_out) as int;
    let n = chunk_count(seq_len, fan_out) as int;
    if seq_len > 0 && seq_len % fan_out == 0 {
        lemma_fundamental_div_mod(seq_len as int, fan_out as int);
        assert(seq_len == fan_out * c + 0);
        lemma_fundamental_div_mod_converse(seq_len as int, c, fan_out as int, 0);
    }
    if seq_len > 0 {
        let q = seq_len as int / c;
        let r = seq_len as int % c;
        lemma_fundamental_div_mod(seq_len as int, c);
        assert(c * q == q * c) by (nonlinear_arith);
        assert(q >= 0) by (nonlinear_arith)
            requires
                seq_len == c * q + r,
                0 <= r < c,
                seq_len >= 0,
        ;
        // the count is the least number of full-size chunks that cover the axis
        assert((n - 1) * c < seq_len && seq_len <= n * c) by (nonlinear_arith)
            requires
                seq_len == q * c + r,
                0 <= r < c,
                n == if r == 0 { q } else { q + 1 },
                seq_len > 0,
        ;
        assert(n <= fan_out) by (nonlinear_arith)
            requires
                (n - 1) * c < seq_len,
                seq_len <= c * fan_out,
                c >= 1,
        ;
        assert(n <= seq_len) by (nonlinear_arith)
            requires
                (n - 1) * c < seq_len,
                c >= 1,
        ;
        assert(n > 0) by (nonlinear_arith)
            requires
                seq_len <= n * c,
                seq_len > 0,
                c >= 1,
        ;
        assert(0 * c == 0) by (nonlinear_arith);
        assert(((n - 1) + 1) * c == n * c) by (nonlinear_arith);
        assert forall|i: nat| i < n implies #[trigger] chunk_start(seq_len, fan_out, i)
            < chunk_end(seq_len, fan_out, i) <= seq_len && chunk_end(seq_len, fan_out, i)
            - chunk_start(seq_len, fan_out, i) <= c by {
            assert(i * c <= (n - 1) * c && (i + 1) * c == i * c + c) by (nonlinear_arith)
                requires
                    0 <= i <= n - 1,
                    c >= 1,
            ;
        }
        assert forall|i: nat| i + 1 < n implies #[trigger] chunk_end(seq_len, fan_out, i)
            == chunk_start(seq_len, fan_out, i + 1) && chunk_end(seq_len, fan_out, i)
            - chunk_start(seq_len, fan_out, i) == c by {
            assert((i + 1) * c <= (n - 1) * c && (i + 1) * c == i * c + c) by (nonlinear_arith)
                requires
                    0 <= i + 1 <= n - 1,
                    c >= 1,
            ;
        }
        if seq_len < fan_out {
            assert(c == 1) by {
                vstd::arithmetic::div_mod::lemma_small_mod(seq_len, fan_out);
                lemma_fundamental_div_mod_converse(seq_len as int, fan_out as int, 0, seq_len as int);
            }
            assert(n == seq_len) by {
                lemma_fundamental_div_mod_converse(seq_len as int, 1, seq_len as int, 0);
            }
        }
    }
}

/// Every chunk visits every cache exactly once within a block: for a chunk
/// and a cache there is one rotation, and only one, at which the chunk
/// visits that cache.
pub proof fn lemma_rotation_visits_each_cache_once(chunk: nat, cache: nat, num_caches: nat)
    requires
        cache < num_caches,
    ensures
        exists|r: nat| r < num_caches && #[trigger] rotated_cache(chunk, r, num_caches) == cache,
        forall|r1: nat, r2: nat|
            r1 < num_caches && r2 < num_caches && #[trigger] rotated_cache(chunk, r1, num_caches)
                == cache && #[trigger] rotated_cache(chunk, r2, num_caches) == cache ==> r1 == r2,
{
    let n = num_caches as int;
    let base = chunk as int % n;
    lemma_fundamental_div_mod(chunk as int, n);
    let q = chunk as int / n;
    let r: nat = if cache >= base {
        (cache - base) as nat
    } else {
        (cache + n - base) as nat
    };
    assert(rotated_cache(chunk, r, num_caches) == cache) by {
        if cache >= base {
            assert(chunk + r == q * n + cache) by (nonlinear_arith)
                requires
                    chunk == n * q + base,
                    r == cache - base,
            ;
            lemma_fundamental_div_mod_converse(chunk as int + r as int, n, q, cache as int);
        } else {
            assert(chunk + r == (q + 1) * n + cache) by (nonlinear_arith)
                requires
                    chunk == n * q + base,
                    r == cache + n - base,
            ;
            lemma_fundamental_div_mod_converse(chunk as int + r as int, n, q + 1, cache as int);
        }
    }
    assert forall|r1: nat, r2: nat|
        r1 < num_caches && r2 < num_caches && #[trigger] rotated_cache(chunk, r1, num_caches)
            == cache && #[trigger] rotated_cache(chunk, r2, num_caches) == cache implies r1
        == r2 by {
        let a = chunk as int + r1 as int;
        let b = chunk as int + r2 as int;
        lemma_fundamental_div_mod(a, n);
        lemma_fundamental_div_mod(b, n);
        let qa = a / n;
        let qb = b / n;
        assert(r1 - r2 == n * (qa - qb)) by (nonlinear_arith)
            requires
                a == n * qa + cache,
                b == n * qb + cache,
                a - b == r1 - r2,
        ;
        assert(qa == qb) by (nonlinear_arith)
            requires
                r1 - r2 == n * (qa - qb),
                -n < r1 - r2 < n,
                n > 0,
        ;
    }
}

/// The chunk size for `seq_len` positions on `fan_out` devices.
pub fn compute_chunk_size(seq_len: usize, fan_out: usize) -> (c: usize)
    requires
        fan_out > 0,
    ensures
        c == chunk_size(seq_len as nat, fan_out as nat),
{
    proof {
        lemma_size_covers(seq_len as nat, fan_out as nat);
    }
    if seq_len % fan_out == 0 {
        seq_len / fan_out
    } else {
        seq_len / fan_out + 1
    }
}

/// Cuts `seq_len` positions into the chunks of the plan, chunk `i` on device
/// `i`.
pub fn plan_chunks(seq_len: usize, fan_out: usize) -> (chunks: Vec<Chunk>)
    requires
        fan_out > 0,
    ensures
        chunks@ == chunk_plan(seq_len as nat, fan_out as nat),
{
    let c = compute_chunk_size(seq_len, fan_out);
    let mut chunks: Vec<Chunk> = Vec::new();
    let mut start: usize = 0;
    let ghost n = chunk_count(seq_len as nat, fan_out as nat);
    proof {
        lemma_chunks_tile(seq_len as nat, fan_out as nat);
        lemma_size_covers(seq_len as nat, fan_out as nat);
        assert(0 * (c as int) == 0) by (nonlinear_arith);
    }
    while start < seq_len
        invariant
            fan_out > 0,
            c == chunk_size(seq_len as nat, fan_out as nat),
            n == chunk_count(seq_len as nat, fan_out as nat),
            chunks.len() <= n,
            chunks.len() < n ==> start == chunk_start(seq_len as nat, fan_out as nat, chunks.len() as nat),
            chunks.len() == n ==> start == seq_len,
            start <= seq_len,
            forall|i: int|
                0 <= i < chunks.len() ==> chunks[i] == chunk_at(
                    seq_len as nat,
                    fan_out as nat,
                    i as nat,
                ),
        decreases seq_len - start,
    {
        let ghost i = chunks.len() as nat;
        proof {
            lemma_chunks_tile(seq_len as nat, fan_out as nat);
            assert(chunk_start(seq_len as nat, fan_out as nat, i) < chunk_end(
                seq_len as nat,
                fan_out as nat,
                i,
            ));
            assert((i + 1) * (c as int) == i * (c as int) + c) by (nonlinear_arith);
        }
        let end = if seq_len - start <= c {
            seq_len
        } else {
            start + c
        };
        let device = chunks.len();
        chunks.push(Chunk { start, end, device });
        proof {
            if i + 1 < n {
                assert(chunk_end(seq_len as nat, fan_out as nat, i) == chunk_start(
                    seq_len as nat,
                    fan_out as nat,
                    i + 1,
                ));
            }
        }
        start = end;
    }
    proof {
        lemma_chunks_tile(seq_len as nat, fan_out as nat);
        if chunks.len() < n {
            let i = chunks.len() as nat;
            assert(chunk_start(seq_len as nat, fan_out as nat, i) < chunk_end(
                seq_len as nat,
                fan_out as nat,
                i,
            ));
        }
        assert(chunks@ =~= chunk_plan(seq_len as nat, fan_out as nat));
    }
    chunks
}

/// The cache that chunk `chunk` visits on its `rotation`-th visit.
pub fn cache_for(chunk: usize, rotation: usize, num_caches: usize) -> (cache: usize)
    requires
        chunk < num_caches,
        rotation < num_caches,
    ensures
        cache == rotated_cache(chunk as nat, rotation as nat, num_caches as nat),
        cache < num_caches,
{
    let room = num_caches - chunk;
    if rotation >= room {
        proof {
            lemma_fundamental_div_mod_converse(
                chunk as int + rotation as int,
                num_caches as int,
                1,
                rotation as int - room as int,
            );
        }
        rotation - room
    } else {
        proof {
            lemma_fundamental_div_mod_converse(
                chunk as int + rotation as int,
                num_caches as int,
                0,
                chunk as int + rotation as int,
            );
        }
        chunk + rotation
    }
}

/// The attention steps of one block, in the order in which they run: chunk
/// by chunk, and for each chunk one visit to each cache, starting at the
/// cache that shares the chunk's index.
pub fn plan_block(num_chunks: usize, num_caches: usize) -> (steps: Vec<AttentionStep>)
    requires
        num_chunks <= num_caches,
        num_chunks * num_caches <= usize::MAX,
    ensures
        steps@ == block_schedule(num_chunks as nat, num_caches as nat),
{
    let mut steps: Vec<AttentionStep> = Vec::new();
    let mut chunk: usize = 0;
    while chunk < num_chunks
        invariant
            chunk <= num_chunks <= num_caches,
            num_chunks * num_caches <= usize::MAX,
            steps.len() == chunk * num_caches,
            forall|k: int| 0 <= k < steps.len() ==> steps[k] == step_at(k as nat, num_caches as nat),
        decreases num_chunks - chunk,
    {
        let mut rotation: usize = 0;
        while rotation < num_caches
            invariant
                chunk < num_chunks <= num_caches,
                rotation <= num_caches,
                num_chunks * num_caches <= usize::MAX,
                steps.len() == chunk * num_caches + rotation,
                forall|k: int|
                    0 <= k < steps.len() ==> steps[k] == step_at(k as nat, num_caches as nat),
            decreases num_caches - rotation,
        {
            let cache = cache_for(chunk, rotation, num_caches);
            proof {
                let k = steps.len() as int;
                lemma_fundamental_div_mod_converse(
                    k,
                    num_caches as int,
                    chunk as int,
                    rotation as int,
                );
                assert((chunk + 1) * num_caches <= num_chunks * num_caches) by (nonlinear_arith)
                    requires
                        chunk + 1 <= num_chunks,
                        num_caches >= 0,
                ;
                assert((chunk + 1) * num_caches == chunk * num_caches + num_caches)
                    by (nonlinear_arith);
            }
            steps.push(AttentionStep { chunk, rotation, cache });
            rotation = rotation + 1;
        }
        proof {
            assert((chunk + 1) * num_caches == chunk * num_caches + num_caches)
                by (nonlinear_arith);
        }
        chunk = chunk + 1;
    }
    proof {
        assert(steps@ =~= block_schedule(num_chunks as nat, num_caches as nat));
    }
    steps
}

} // verus!
