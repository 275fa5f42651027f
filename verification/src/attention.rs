//! Shape decisions of causal self-attention with grouped key/value heads,
//! and the causal mask.
//!
//! The arithmetic on activations is done by the tensor back end. What is
//! decided here is which shapes the projections are brought into, what the
//! layer's cache holds afterwards, and which positions a query may look at.

use vstd::prelude::*;
use crate::config::{heads_error, projection_sizes, Config, ConfigError};
use crate::kv_cache::{update_result, CacheError, KvCache, KvShape};

verus! {

/// How an attention layer computes its output.
#[derive(Clone, Copy, Debug, PartialEq, Eq, Structural)]
pub enum AttentionImplementation {
    /// Scaled dot-product attention over the layer's own cache.
    Eager,
    /// Attention delegated to a paged key/value store.
    PagedAttention,
}

/// A tensor shape `[batch, heads, seq_len, head_dim]`.
#[derive(Clone, Copy, Debug, PartialEq, Eq, Structural)]
pub struct HeadsShape {
    pub batch: usize,
    pub heads: usize,
    pub seq_len: usize,
    pub head_dim: usize,
}

/// A tensor shape `[batch, seq_len, hidden]`.
#[derive(Clone, Copy, Debug, PartialEq, Eq, Structural)]
pub struct HiddenShape {
    pub batch: usize,
    pub seq_len: usize,
    pub hidden: usize,
}

/// Why the shapes of an attention call do not work out.
#[derive(Clone, Copy, Debug, PartialEq, Eq, Structural)]
pub enum AttentionError {
    /// The last axis of the input is not the model's hidden size, or the
    /// heads do not add up to the hidden size.
    HiddenSize,
    /// Batch size times sequence length does not fit the machine word.
    TooLarge,
    /// The layer's cache refused the new keys and values.
    Cache(CacheError),
}

/// The shapes of one attention call.
#[derive(Clone, Copy, Debug, PartialEq, Eq, Structural)]
pub struct AttentionShapes {
    /// Activations are brought to single precision around the projections.
    pub upcast: bool,
    /// Queries, keys and values are reshaped to `[batch, seq_len, heads,
    /// head_dim]` and the two middle axes swapped; with a single position the
    /// reshape alone gives the same layout.
    pub transposed: bool,
    /// Number of rows of the flattened projections: batch times seq_len.
    pub rows: usize,
    /// The queries.
    pub query: HeadsShape,
    /// The keys, and the values, of the new positions.
    pub key_value: HeadsShape,
    /// The keys, and the values, that the queries attend over: the layer's
    /// cache after the append, each key/value head repeated for its group of
    /// query heads. A paged store keeps this to itself.
    pub attended: Option<HeadsShape>,
    /// The attention output is `[batch, heads, seq_len, head_dim]` and has
    /// its middle axes swapped back before it is flattened; without a mask
    /// there is a single position and the reshape alone does it.
    pub output_transposed: bool,
    /// The output: the shape of the input.
    pub output: HiddenShape,
}

/// One attention layer's sizes and switches.
#[derive(Clone, Copy, Debug, PartialEq, Eq, Structural)]
pub struct CausalSelfAttention {
    pub num_attention_heads: usize,
    pub num_key_value_heads: usize,
    pub head_dim: usize,
    pub hidden_size: usize,
    pub use_flash_attn: bool,
    pub max_seq_len: usize,
    pub implementation: AttentionImplementation,
    /// The projection weights are stored quantized.
    pub quantized: bool,
}

/// The layer that `CausalSelfAttention::load` builds from a configuration
/// with usable head counts.
pub open spec fn loaded(cfg: Config, implementation: AttentionImplementation) -> CausalSelfAttention {
    CausalSelfAttention {
        num_attention_heads: cfg.num_attention_heads,
        num_key_value_heads: cfg.num_key_value_heads,
        head_dim: projection_sizes(cfg).head_dim,
        hidden_size: cfg.hidden_size,
        use_flash_attn: cfg.use_flash_attn,
        max_seq_len: cfg.max_position_embeddings,
        implementation,
        quantized: false,
    }
}

/// The keys and values of the new positions.
pub open spec fn new_key_value(att: CausalSelfAttention, batch: usize, seq_len: usize) -> KvShape {
    KvShape {
        batch,
        kv_heads: att.num_key_value_heads,
        past_len: seq_len,
        head_dim: att.head_dim,
    }
}

/// What `forward` owes for a layer, an input of shape `[batch, seq_len,
/// hidden]`, the presence of a mask and the layer's slots before the call.
pub open spec fn forward_result(
    att: CausalSelfAttention,
    batch: usize,
    seq_len: usize,
    hidden: usize,
    has_mask: bool,
    slots: Seq<Option<KvShape>>,
    layer: nat,
) -> Result<AttentionShapes, AttentionError> {
    if hidden != att.hidden_size || att.head_dim * att.num_attention_heads != att.hidden_size {
        Err(AttentionError::HiddenSize)
    } else if batch * seq_len > usize::MAX {
        Err(AttentionError::TooLarge)
    } else {
        let shapes = AttentionShapes {
            upcast: att.quantized,
            transposed: seq_len != 1,
            rows: (batch * seq_len) as usize,
            query: HeadsShape {
                batch,
                heads: att.num_attention_heads,
                seq_len,
                head_dim: att.head_dim,
            },
            key_value: HeadsShape {
                batch,
                heads: att.num_key_value_heads,
                seq_len,
                head_dim: att.head_dim,
            },
            attended: None,
            output_transposed: has_mask,
            output: HiddenShape { batch, seq_len, hidden },
        };
        match att.implementation {
            AttentionImplementation::PagedAttention => Ok(shapes),
            AttentionImplementation::Eager => match update_result(
                slots,
                layer,
                new_key_value(att, batch, seq_len),
            ) {
                Err(e) => Err(AttentionError::Cache(e)),
                Ok(stored) => Ok(
                    AttentionShapes {
                        attended: Some(
                            HeadsShape {
                                batch,
                                heads: att.num_attention_heads,
                                seq_len: stored.past_len,
                                head_dim: att.head_dim,
                            },
                        ),
                        ..shapes
                    },
                ),
            },
        }
    }
}

/// Whether a query at position `row` of the new positions is barred from the
/// key at position `col` of the past and new positions together: a query may
/// look at the whole past and at the new positions up to its own.
pub open spec fn masked(row: int, col: int, past_len: int) -> bool {
    col > row + past_len
}

impl CausalSelfAttention {
    /// The layer for a configuration; weights are dense after loading.
    pub fn load(cfg: &Config, implementation: AttentionImplementation) -> (r: Result<
        CausalSelfAttention,
        ConfigError,
    >)
        ensures
            match heads_error(*cfg) {
                Some(e) => r == Err::<CausalSelfAttention, ConfigError>(e),
                None => r == Ok::<CausalSelfAttention, ConfigError>(loaded(*cfg, implementation)),
            },
    {
        match cfg.projections() {
            Err(e) => Err(e),
            Ok(sizes) => Ok(
                CausalSelfAttention {
                    num_attention_heads: cfg.num_attention_heads,
                    num_key_value_heads: cfg.num_key_value_heads,
                    head_dim: sizes.head_dim,
                    hidden_size: cfg.hidden_size,
                    use_flash_attn: cfg.use_flash_attn,
                    max_seq_len: cfg.max_position_embeddings,
                    implementation,
                    quantized: false,
                },
            ),
        }
    }

    /// How often each key/value head is repeated to serve its query heads.
    pub fn repeat_factor(&self) -> (n: usize)
        requires
            self.num_key_value_heads > 0,
        ensures
            n == self.num_attention_heads as int / self.num_key_value_heads as int,
    {
        self.num_attention_heads / self.num_key_value_heads
    }

    /// Shapes of one attention call on an input of shape `[batch, seq_len,
    /// hidden]` for the layer `block_idx`. With the eager implementation the
    /// new keys and values are appended to the layer's slot of `kv_cache`;
    /// the paged implementation leaves the cache alone. On an error the cache
    /// is as before.
    pub fn forward(
        &self,
        batch: usize,
        seq_len: usize,
        hidden: usize,
        has_mask: bool,
        block_idx: usize,
        kv_cache: &mut KvCache,
    ) -> (r: Result<AttentionShapes, AttentionError>)
        ensures
            r == forward_result(
                *self,
                batch,
                seq_len,
                hidden,
                has_mask,
                old(kv_cache)@.slots,
                block_idx as nat,
            ),
            final(kv_cache)@.device == old(kv_cache)@.device,
            r is Err || self.implementation is PagedAttention ==> final(kv_cache)@ == old(
                kv_cache,
            )@,
            r is Ok && self.implementation is Eager ==> final(kv_cache)@.slots == old(
                kv_cache,
            )@.slots.update(
                block_idx as int,
                update_result(
                    old(kv_cache)@.slots,
                    block_idx as nat,
                    new_key_value(*self, batch, seq_len),
                ).ok(),
            ),
    {
        if hidden != self.hidden_size {
            return Err(AttentionError::HiddenSize);
        }
        match self.head_dim.checked_mul(self.num_attention_heads) {
            Some(w) => {
                if w != self.hidden_size {
                    return Err(AttentionError::HiddenSize);
                }
            },
            None => {
                return Err(AttentionError::HiddenSize);
            },
        }
        let rows = match batch.checked_mul(seq_len) {
            Some(n) => n,
            None => {
                return Err(AttentionError::TooLarge);
            },
        };
        let shapes = AttentionShapes {
            upcast: self.quantized,
            transposed: seq_len != 1,
            rows,
            query: HeadsShape {
                batch,
                heads: self.num_attention_heads,
                seq_len,
                head_dim: self.head_dim,
            },
            key_value: HeadsShape {
                batch,
                heads: self.num_key_value_heads,
                seq_len,
                head_dim: self.head_dim,
            },
            attended: None,
            output_transposed: has_mask,
            output: HiddenShape { batch, seq_len, hidden },
        };
        match self.implementation {
            AttentionImplementation::PagedAttention => Ok(shapes),
            AttentionImplementation::Eager => {
                let incoming = KvShape {
                    batch,
                    kv_heads: self.num_key_value_heads,
                    past_len: seq_len,
                    head_dim: self.head_dim,
                };
                match kv_cache.update(block_idx, incoming) {
                    Err(e) => Err(AttentionError::Cache(e)),
                    Ok(stored) => Ok(
                        AttentionShapes {
                            upcast: shapes.upcast,
                            transposed: shapes.transposed,
                            rows: shapes.rows,
                            query: shapes.query,
                            key_value: shapes.key_value,
                            attended: Some(
                                HeadsShape {
                                    batch,
                                    heads: self.num_attention_heads,
                                    seq_len: stored.past_len,
                                    head_dim: self.head_dim,
                                },
                            ),
                            output_transposed: shapes.output_transposed,
                            output: shapes.output,
                        },
                    ),
                }
            },
        }
    }
}

/// The causal mask for `seq_len` new positions after `past_len` cached ones:
/// one row per new position, one column per cached or new position, `true`
/// where the query must not look. Nothing when the columns do not fit the
/// machine word.
pub fn causal_mask(seq_len: usize, past_len: usize) -> (mask: Option<Vec<Vec<bool>>>)
    ensures
        mask is None <==> seq_len + past_len > usize::MAX,
        mask matches Some(m) ==> {
            &&& m.len() == seq_len
            &&& forall|i: int| 0 <= i < seq_len ==> (#[trigger] m[i]).len() == seq_len + past_len
            &&& forall|i: int, j: int|
                0 <= i < seq_len && 0 <= j < seq_len + past_len ==> #[trigger] m[i][j] == masked(
                    i,
                    j,
                    past_len as int,
                )
        },
{
    if past_len > usize::MAX - seq_len {
        return None;
    }
    let width = seq_len + past_len;
    let mut rows: Vec<Vec<bool>> = Vec::new();
    let mut i: usize = 0;
    while i < seq_len
        invariant
            i <= seq_len,
            width == seq_len + past_len,
            rows.len() == i,
            forall|r: int| 0 <= r < i ==> (#[trigger] rows[r]).len() == width,
            forall|r: int, c: int|
                0 <= r < i && 0 <= c < width ==> #[trigger] rows[r][c] == masked(
                    r,
                    c,
                    past_len as int,
                ),
        decreases seq_len - i,
    {
        let mut row: Vec<bool> = Vec::new();
        let mut j: usize = 0;
        while j < width
            invariant
                j <= width,
                i < seq_len,
                width == seq_len + past_len,
                row.len() == j,
                forall|c: int| 0 <= c < j ==> #[trigger] row[c] == masked(i as int, c, past_len as int),
            decreases width - j,
        {
            row.push(j > i + past_len);
            j = j + 1;
        }
        rows.push(row);
        i = i + 1;
    }
    Some(rows)
}

} // verus!
