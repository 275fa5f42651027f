//! Model configuration and the sizes derived from it.

use vstd::prelude::*;

verus! {

/// Parameters of the long-context rotary scaling. Real-valued entries are
/// held as the bit pattern of their IEEE-754 single-precision value.
#[derive(Clone, Copy, Debug, PartialEq, Eq, Structural)]
pub struct RopeScaling {
    pub factor_bits: u32,
    pub low_freq_factor_bits: u32,
    pub high_freq_factor_bits: u32,
    pub original_max_position_embeddings: usize,
}

/// The configuration a model is loaded with. Real-valued entries are held as
/// the bit pattern of their IEEE-754 value, so that the configuration can be
/// compared and carried around exactly.
#[derive(Clone, Copy, Debug, PartialEq, Eq, Structural)]
pub struct Config {
    pub hidden_size: usize,
    pub intermediate_size: usize,
    pub vocab_size: usize,
    pub num_hidden_layers: usize,
    pub num_attention_heads: usize,
    pub num_key_value_heads: usize,
    pub use_flash_attn: bool,
    /// Bits of the double-precision epsilon of the RMS norm.
    pub rms_norm_eps_bits: u64,
    /// Bits of the single-precision rotary base.
    pub rope_theta_bits: u32,
    pub max_position_embeddings: usize,
    pub rope_scaling: Option<RopeScaling>,
}

/// The part of the configuration that the cache and attention back ends
/// need.
#[derive(Clone, Copy, Debug, PartialEq, Eq, Structural)]
pub struct ModelConfigMetadata {
    pub num_layers: usize,
    pub hidden_size: usize,
    pub num_kv_heads: usize,
    pub num_attn_heads: usize,
    pub sliding_window: Option<usize>,
}

/// Why a configuration cannot be used.
#[derive(Clone, Copy, Debug, PartialEq, Eq, Structural)]
pub enum ConfigError {
    /// There is no attention head.
    NoAttentionHeads,
    /// There is no key/value head.
    NoKeyValueHeads,
    /// The number of key/value heads does not divide the number of attention
    /// heads.
    HeadsNotGrouped,
    /// The model has no layer.
    NoLayers,
    /// The device map does not name one device per layer.
    DeviceMapLength,
}

/// Sizes of the attention projections.
#[derive(Clone, Copy, Debug, PartialEq, Eq, Structural)]
pub struct ProjectionSizes {
    /// Width of the input of the query, key and value projections.
    pub size_in: usize,
    /// Width of the query projection: head width times attention heads.
    pub size_q: usize,
    /// Width of the key and of the value projection: head width times
    /// key/value heads.
    pub size_kv: usize,
    /// Width of one head: hidden size over attention heads.
    pub head_dim: usize,
    /// Number of query heads that share one key/value head.
    pub group_size: usize,
}

/// The error, if any, that makes the head counts of `cfg` unusable.
pub open spec fn heads_error(cfg: Config) -> Option<ConfigError> {
    if cfg.num_attention_heads == 0 {
        Some(ConfigError::NoAttentionHeads)
    } else if cfg.num_key_value_heads == 0 {
        Some(ConfigError::NoKeyValueHeads)
    } else if cfg.num_attention_heads % cfg.num_key_value_heads != 0 {
        Some(ConfigError::HeadsNotGrouped)
    } else {
        None
    }
}

/// The projection sizes of a configuration with usable head counts.
pub open spec fn projection_sizes(cfg: Config) -> ProjectionSizes {
    let head_dim = cfg.hidden_size as int / cfg.num_attention_heads as int;
    ProjectionSizes {
        size_in: cfg.hidden_size,
        size_q: (head_dim * cfg.num_attention_heads) as usize,
        size_kv: (head_dim * cfg.num_key_value_heads) as usize,
        head_dim: head_dim as usize,
        group_size: (cfg.num_attention_heads as int / cfg.num_key_value_heads as int) as usize,
    }
}

/// The projection widths never exceed the hidden size, and the query width
/// is the key/value width times the group size.
pub proof fn lemma_projection_bounds(cfg: Config)
    requires
        heads_error(cfg) is None,
    ensures
        projection_sizes(cfg).size_kv <= projection_sizes(cfg).size_q <= cfg.hidden_size,
        projection_sizes(cfg).head_dim * cfg.num_attention_heads == projection_sizes(cfg).size_q,
        projection_sizes(cfg).head_dim * cfg.num_key_value_heads == projection_sizes(cfg).size_kv,
        projection_sizes(cfg).size_kv * projection_sizes(cfg).group_size == projection_sizes(
            cfg,
        ).size_q,
        projection_sizes(cfg).group_size >= 1,
{
    let h = cfg.hidden_size as int;
    let a = cfg.num_attention_heads as int;
    let k = cfg.num_key_value_heads as int;
    let d = h / a;
    let g = a / k;
    vstd::arithmetic::div_mod::lemma_fundamental_div_mod(h, a);
    vstd::arithmetic::div_mod::lemma_fundamental_div_mod(a, k);
    assert(a == k * g);
    assert(0 <= d && d * a <= h) by (nonlinear_arith)
        requires
            h == a * d + h % a,
            0 <= h % a < a,
            h >= 0,
    ;
    assert(g >= 1) by (nonlinear_arith)
        requires
            a == k * g,
            a > 0,
            k > 0,
    ;
    assert(0 <= d * k <= d * a && (d * k) * g == d * a) by (nonlinear_arith)
        requires
            a == k * g,
            g >= 1,
            k > 0,
            d >= 0,
    ;
}

impl Config {
    /// Checks the head counts and derives the projection sizes.
    pub fn projections(&self) -> (r: Result<ProjectionSizes, ConfigError>)
        ensures
            match heads_error(*self) {
                Some(e) => r == Err::<ProjectionSizes, ConfigError>(e),
                None => r == Ok::<ProjectionSizes, ConfigError>(projection_sizes(*self)),
            },
    {
        if self.num_attention_heads == 0 {
            return Err(ConfigError::NoAttentionHeads);
        }
        if self.num_key_value_heads == 0 {
            return Err(ConfigError::NoKeyValueHeads);
        }
        if self.num_attention_heads % self.num_key_value_heads != 0 {
            return Err(ConfigError::HeadsNotGrouped);
        }
        proof {
            lemma_projection_bounds(*self);
        }
        let head_dim = self.hidden_size / self.num_attention_heads;
        Ok(
            ProjectionSizes {
                size_in: self.hidden_size,
                size_q: head_dim * self.num_attention_heads,
                size_kv: head_dim * self.num_key_value_heads,
                head_dim,
                group_size: self.num_attention_heads / self.num_key_value_heads,
            },
        )
    }

    /// The metadata handed to cache and attention back ends.
    pub fn metadata(&self) -> (m: ModelConfigMetadata)
        ensures
            m == (ModelConfigMetadata {
                num_layers: self.num_hidden_layers,
                hidden_size: self.hidden_size,
                num_kv_heads: self.num_key_value_heads,
                num_attn_heads: self.num_attention_heads,
                sliding_window: None,
            }),
    {
        ModelConfigMetadata {
            num_layers: self.num_hidden_layers,
            hidden_size: self.hidden_size,
            num_kv_heads: self.num_key_value_heads,
            num_attn_heads: self.num_attention_heads,
            sliding_window: None,
        }
    }
}

} // verus!
