use mistralrs_core::attention::{
    causal_mask, AttentionError, AttentionImplementation, CausalSelfAttention, HeadsShape,
    HiddenShape,
};
use mistralrs_core::chunking::{
    cache_for, compute_chunk_size, plan_block, plan_chunks, AttentionStep, Chunk,
};
use mistralrs_core::config::{Config, ConfigError, ModelConfigMetadata};
use mistralrs_core::forward::{plan_forward, ForwardOp};
use mistralrs_core::inputs::{
    extract_logits, get_completion_input, get_prompt_input, InputError, PADDING_TOKEN,
};
use mistralrs_core::kv_cache::{CacheError, KvCache, KvShape};
use mistralrs_core::llama::{distinct_devices, Llama};

fn small_config() -> Config {
    Config {
        hidden_size: 64,
        intermediate_size: 128,
        vocab_size: 1000,
        num_hidden_layers: 4,
        num_attention_heads: 8,
        num_key_value_heads: 2,
        use_flash_attn: false,
        rms_norm_eps_bits: 0x3EE4F8B588E368F1,
        rope_theta_bits: 0x461C4000,
        max_position_embeddings: 2048,
        rope_scaling: None,
    }
}

fn chunk(start: usize, end: usize, device: usize) -> Chunk {
    Chunk { start, end, device }
}

#[test]
fn chunk_size_is_the_rounded_up_quotient() {
    assert_eq!(compute_chunk_size(10, 4), 3);
    assert_eq!(compute_chunk_size(8, 4), 2);
    assert_eq!(compute_chunk_size(3, 4), 1);
    assert_eq!(compute_chunk_size(0, 4), 0);
    assert_eq!(compute_chunk_size(7, 1), 7);
    assert_eq!(compute_chunk_size(usize::MAX, 2), usize::MAX / 2 + 1);
}

#[test]
fn chunks_tile_the_sequence() {
    assert_eq!(
        plan_chunks(10, 4),
        vec![chunk(0, 3, 0), chunk(3, 6, 1), chunk(6, 9, 2), chunk(9, 10, 3)]
    );
    assert_eq!(
        plan_chunks(8, 4),
        vec![chunk(0, 2, 0), chunk(2, 4, 1), chunk(4, 6, 2), chunk(6, 8, 3)]
    );
    assert_eq!(plan_chunks(5, 1), vec![chunk(0, 5, 0)]);
}

#[test]
fn short_sequence_gets_one_chunk_per_token() {
    assert_eq!(plan_chunks(3, 4), vec![chunk(0, 1, 0), chunk(1, 2, 1), chunk(2, 3, 2)]);
    assert_eq!(plan_chunks(1, 4), vec![chunk(0, 1, 0)]);
    assert_eq!(plan_chunks(0, 4), Vec::<Chunk>::new());
}

#[test]
fn last_chunk_holds_what_is_left() {
    // five positions on four devices: chunks of two, the last one shorter,
    // and the fourth device stays unused
    assert_eq!(plan_chunks(5, 4), vec![chunk(0, 2, 0), chunk(2, 4, 1), chunk(4, 5, 2)]);
    let chunks = plan_chunks(1001, 4);
    assert_eq!(chunks.len(), 4);
    assert_eq!(chunks[3], chunk(753, 1001, 3));
    let total: usize = chunks.iter().map(|c| c.end - c.start).sum();
    assert_eq!(total, 1001);
}

#[test]
fn rotation_starts_at_the_own_cache_and_wraps() {
    assert_eq!(cache_for(0, 0, 4), 0);
    assert_eq!(cache_for(1, 0, 4), 1);
    assert_eq!(cache_for(3, 1, 4), 0);
    assert_eq!(cache_for(2, 3, 4), 1);
    assert_eq!(cache_for(0, 0, 1), 0);
    assert_eq!(cache_for(usize::MAX - 1, usize::MAX - 1, usize::MAX), usize::MAX - 2);
}

#[test]
fn every_chunk_visits_every_cache_once() {
    let steps = plan_block(3, 4);
    assert_eq!(steps.len(), 12);
    assert_eq!(steps[0], AttentionStep { chunk: 0, rotation: 0, cache: 0 });
    assert_eq!(steps[5], AttentionStep { chunk: 1, rotation: 1, cache: 2 });
    assert_eq!(steps[11], AttentionStep { chunk: 2, rotation: 3, cache: 1 });
    for c in 0..3 {
        let mut seen: Vec<usize> =
            steps.iter().filter(|s| s.chunk == c).map(|s| s.cache).collect();
        seen.sort();
        assert_eq!(seen, vec![0, 1, 2, 3]);
    }
    assert!(plan_block(0, 4).is_empty());
}

#[test]
fn forward_pass_runs_block_after_block() {
    let steps = plan_block(1, 1);
    let only = AttentionStep { chunk: 0, rotation: 0, cache: 0 };
    assert_eq!(steps, vec![only]);
    assert_eq!(
        plan_forward(2, &steps).unwrap(),
        vec![
            ForwardOp::Embed,
            ForwardOp::InputNorm { block: 0 },
            ForwardOp::Attend { block: 0, step: only },
            ForwardOp::Concat { block: 0 },
            ForwardOp::AttentionResidual { block: 0 },
            ForwardOp::PostAttentionNorm { block: 0 },
            ForwardOp::Mlp { block: 0 },
            ForwardOp::MlpResidual { block: 0 },
            ForwardOp::InputNorm { block: 1 },
            ForwardOp::Attend { block: 1, step: only },
            ForwardOp::Concat { block: 1 },
            ForwardOp::AttentionResidual { block: 1 },
            ForwardOp::PostAttentionNorm { block: 1 },
            ForwardOp::Mlp { block: 1 },
            ForwardOp::MlpResidual { block: 1 },
            ForwardOp::FinalNorm,
            ForwardOp::LmHead,
            ForwardOp::ExtractLogits,
        ]
    );
    assert_eq!(
        plan_forward(0, &steps).unwrap(),
        vec![ForwardOp::Embed, ForwardOp::FinalNorm, ForwardOp::LmHead, ForwardOp::ExtractLogits]
    );
    assert!(plan_forward(usize::MAX, &steps).is_none());
}

#[test]
fn attention_calls_of_a_block_come_before_its_residual() {
    let steps = plan_block(3, 4);
    let program = plan_forward(5, &steps).unwrap();
    assert_eq!(program.len(), 5 * (12 + 6) + 4);
    for block in 0..5 {
        let place = |wanted: ForwardOp| program.iter().position(|op| *op == wanted).unwrap();
        let norm = place(ForwardOp::InputNorm { block });
        let concat = place(ForwardOp::Concat { block });
        let attends: Vec<usize> = program
            .iter()
            .enumerate()
            .filter(|(_, op)| matches!(op, ForwardOp::Attend { block: b, .. } if *b == block))
            .map(|(i, _)| i)
            .collect();
        assert_eq!(attends.len(), 12);
        assert!(attends.iter().all(|i| norm < *i && *i < concat));
        // the calls keep the order of the steps
        for (k, i) in attends.iter().enumerate() {
            assert_eq!(program[*i], ForwardOp::Attend { block, step: steps[k] });
        }
        assert_eq!(program[concat + 1], ForwardOp::AttentionResidual { block });
        assert_eq!(program[concat + 2], ForwardOp::PostAttentionNorm { block });
        assert_eq!(program[concat + 3], ForwardOp::Mlp { block });
        assert_eq!(program[concat + 4], ForwardOp::MlpResidual { block });
        if block + 1 < 5 {
            assert_eq!(program[concat + 5], ForwardOp::InputNorm { block: block + 1 });
        }
    }
}

#[test]
fn layout_plans_the_whole_pass() {
    let model = Llama::new(&small_config(), vec![0, 0, 1, 1], 0).unwrap();
    // four layers, two chunks over two caches
    let program = model.plan_forward(5).unwrap();
    assert_eq!(program.len(), 4 * (4 + 6) + 4);
    assert_eq!(program[2], ForwardOp::Attend {
        block: 0,
        step: AttentionStep { chunk: 0, rotation: 0, cache: 0 },
    });
    assert_eq!(program[5], ForwardOp::Attend {
        block: 0,
        step: AttentionStep { chunk: 1, rotation: 1, cache: 0 },
    });
    // a single position: one chunk, still over both caches
    let program = model.plan_forward(1).unwrap();
    assert_eq!(program.len(), 4 * (2 + 6) + 4);
    // nothing to attend for an empty pass
    let program = model.plan_forward(0).unwrap();
    assert_eq!(program.len(), 4 * 6 + 4);
}

#[test]
fn every_cache_takes_in_the_whole_sequence() {
    let seq_len = 10;
    let chunks = plan_chunks(seq_len, 4);
    let steps = plan_block(chunks.len(), 4);
    let mut caches: Vec<KvCache> = (0..4).map(|d| KvCache::new(2, d)).collect();
    for layer in 0..2 {
        for step in &steps {
            let c = chunks[step.chunk];
            let incoming = KvShape { batch: 1, kv_heads: 2, past_len: c.end - c.start, head_dim: 8 };
            caches[step.cache].update(layer, incoming).unwrap();
        }
    }
    for cache in &caches {
        assert_eq!(cache.past_len(0), seq_len);
        assert_eq!(cache.past_len(1), seq_len);
    }
}

#[test]
fn cache_length_follows_the_positions_processed() {
    let mut cache = KvCache::new(3, 0);
    assert_eq!(cache.num_layers(), 3);
    assert_eq!(cache.past_len(0), 0);
    assert_eq!(cache.slot(1), None);
    let prompt = KvShape { batch: 2, kv_heads: 4, past_len: 7, head_dim: 16 };
    let one = KvShape { batch: 2, kv_heads: 4, past_len: 1, head_dim: 16 };
    for layer in 0..3 {
        assert_eq!(cache.update(layer, prompt), Ok(prompt));
    }
    for _ in 0..5 {
        for layer in 0..3 {
            cache.update(layer, one).unwrap();
        }
    }
    for layer in 0..3 {
        assert_eq!(cache.past_len(layer), 12);
        assert_eq!(
            cache.slot(layer),
            Some(KvShape { batch: 2, kv_heads: 4, past_len: 12, head_dim: 16 })
        );
    }
    assert_eq!(cache.past_len(3), 0);
}

#[test]
fn cache_refuses_what_does_not_fit() {
    let mut cache = KvCache::new(2, 5);
    let shape = KvShape { batch: 1, kv_heads: 2, past_len: 3, head_dim: 8 };
    assert_eq!(cache.update(2, shape), Err(CacheError::LayerOutOfRange));
    assert_eq!(cache.update(0, shape), Ok(shape));
    let other_batch = KvShape { batch: 2, ..shape };
    let other_heads = KvShape { kv_heads: 4, ..shape };
    let other_width = KvShape { head_dim: 16, ..shape };
    assert_eq!(cache.update(0, other_batch), Err(CacheError::ShapeMismatch));
    assert_eq!(cache.update(0, other_heads), Err(CacheError::ShapeMismatch));
    assert_eq!(cache.update(0, other_width), Err(CacheError::ShapeMismatch));
    let huge = KvShape { past_len: usize::MAX - 2, ..shape };
    assert_eq!(cache.update(0, huge), Err(CacheError::TooLong));
    // a refused append leaves the layer as it was
    assert_eq!(cache.slot(0), Some(shape));
    assert_eq!(cache.slot(1), None);
    assert_eq!(cache.device(), 5);
}

#[test]
fn staging_copies_and_restoring_keeps_the_device() {
    let mut cache = KvCache::new(2, 1);
    let shape = KvShape { batch: 1, kv_heads: 2, past_len: 3, head_dim: 8 };
    cache.update(0, shape).unwrap();
    assert!(cache.needs_transfer(0));
    assert!(!cache.needs_transfer(1));

    let mut staged = cache.staged_on(3);
    assert_eq!(staged.device(), 3);
    assert_eq!(staged.slot(0), Some(shape));
    staged.update(1, shape).unwrap();
    // the cache itself is untouched while its copy is worked on
    assert_eq!(cache.slot(1), None);

    assert_eq!(cache.restore(staged), Ok(()));
    assert_eq!(cache.device(), 1);
    assert_eq!(cache.slot(1), Some(shape));

    // a copy with fewer positions or other layers is refused
    let stale = KvCache::new(2, 3);
    assert_eq!(cache.restore(stale), Err(CacheError::StaleCopy));
    assert_eq!(cache.slot(0), Some(shape));
    assert_eq!(cache.slot(1), Some(shape));
    assert_eq!(cache.restore(KvCache::new(3, 1)), Err(CacheError::StaleCopy));
    assert_eq!(cache.num_layers(), 2);
    assert_eq!(cache.restore(cache.staged_on(5)), Ok(()));
    assert_eq!(cache.device(), 1);

    cache.reset();
    assert_eq!(cache.num_layers(), 2);
    assert_eq!(cache.slot(0), None);
    assert_eq!(cache.slot(1), None);
    assert_eq!(cache.device(), 1);
}

#[test]
fn projection_sizes_follow_the_heads() {
    let sizes = small_config().projections().unwrap();
    assert_eq!(sizes.size_in, 64);
    assert_eq!(sizes.head_dim, 8);
    assert_eq!(sizes.size_q, 64);
    assert_eq!(sizes.size_kv, 16);
    assert_eq!(sizes.group_size, 4);

    let odd = Config { hidden_size: 70, ..small_config() };
    let sizes = odd.projections().unwrap();
    assert_eq!(sizes.head_dim, 8);
    assert_eq!(sizes.size_q, 64);
    assert_eq!(sizes.size_in, 70);
}

#[test]
fn unusable_head_counts_are_told_apart() {
    let no_heads = Config { num_attention_heads: 0, ..small_config() };
    let no_kv = Config { num_key_value_heads: 0, ..small_config() };
    let ungrouped = Config { num_key_value_heads: 3, ..small_config() };
    assert_eq!(no_heads.projections(), Err(ConfigError::NoAttentionHeads));
    assert_eq!(no_kv.projections(), Err(ConfigError::NoKeyValueHeads));
    assert_eq!(ungrouped.projections(), Err(ConfigError::HeadsNotGrouped));
}

#[test]
fn metadata_is_taken_from_the_config() {
    assert_eq!(
        small_config().metadata(),
        ModelConfigMetadata {
            num_layers: 4,
            hidden_size: 64,
            num_kv_heads: 2,
            num_attn_heads: 8,
            sliding_window: None,
        }
    );
}

#[test]
fn fan_out_is_the_distinct_devices_in_first_use_order() {
    assert_eq!(distinct_devices(&vec![2, 2, 0, 2, 1, 0]), vec![2, 0, 1]);
    assert_eq!(distinct_devices(&vec![5, 5, 5]), vec![5]);
    assert_eq!(distinct_devices(&vec![]), Vec::<usize>::new());
}

#[test]
fn layout_gives_every_device_a_cache() {
    let model = Llama::new(&small_config(), vec![0, 0, 1, 1], 0).unwrap();
    assert_eq!(model.num_devices(), 2);
    assert_eq!(model.fan_out_device(0), Some(0));
    assert_eq!(model.fan_out_device(1), Some(1));
    assert_eq!(model.fan_out_device(2), None);
    assert_eq!(model.device_for(2), Some(1));
    assert_eq!(model.device_for(4), None);
    assert_eq!(model.device(), 0);
    assert_eq!(model.max_seq_len(), 2048);
    assert!(!model.is_xlora());
    assert_eq!(model.config().num_layers, 4);
    assert_eq!(model.projection_sizes().head_dim, 8);
    assert_eq!(model.cache().device(), 0);
    assert_eq!(model.cache().num_layers(), 4);
    assert_eq!(model.cache_at(1).unwrap().device(), 1);
    assert!(model.cache_at(2).is_none());
    assert_eq!(model.plan_chunks(5), vec![chunk(0, 3, 0), chunk(3, 5, 1)]);
    assert_eq!(model.plan_block(2).unwrap().len(), 4);
    assert!(model.plan_block(3).is_none());
}

#[test]
fn layout_errors_are_told_apart() {
    let no_layers = Config { num_hidden_layers: 0, ..small_config() };
    assert!(matches!(Llama::new(&no_layers, vec![], 0), Err(ConfigError::NoLayers)));
    assert!(matches!(
        Llama::new(&small_config(), vec![0, 0, 1], 0),
        Err(ConfigError::DeviceMapLength)
    ));
    let ungrouped = Config { num_key_value_heads: 3, ..small_config() };
    assert!(matches!(
        Llama::new(&ungrouped, vec![0, 0, 1, 1], 0),
        Err(ConfigError::HeadsNotGrouped)
    ));
}

#[test]
fn layout_updates_one_cache_and_resets_all() {
    let mut model = Llama::new(&small_config(), vec![0, 1, 0, 1], 0).unwrap();
    let shape = KvShape { batch: 1, kv_heads: 2, past_len: 6, head_dim: 8 };
    assert_eq!(model.update_cache(1, 2, shape), Some(Ok(shape)));
    assert_eq!(model.update_cache(2, 0, shape), None);
    assert_eq!(model.update_cache(0, 9, shape), Some(Err(CacheError::LayerOutOfRange)));
    assert_eq!(model.cache_at(1).unwrap().past_len(2), 6);
    assert_eq!(model.cache_at(0).unwrap().past_len(2), 0);
    model.reset_caches();
    assert_eq!(model.cache_at(1).unwrap().past_len(2), 0);
    assert_eq!(model.cache_at(1).unwrap().device(), 1);
    assert_eq!(model.num_devices(), 2);
}

#[test]
fn attention_shapes_of_a_prompt_and_of_a_decode_step() {
    let att = CausalSelfAttention::load(&small_config(), AttentionImplementation::Eager).unwrap();
    assert_eq!(att.head_dim, 8);
    assert_eq!(att.repeat_factor(), 4);
    assert!(!att.quantized);
    let mut cache = KvCache::new(4, 0);

    let shapes = att.forward(2, 5, 64, true, 1, &mut cache).unwrap();
    assert!(shapes.transposed);
    assert!(shapes.output_transposed);
    assert!(!shapes.upcast);
    assert_eq!(shapes.rows, 10);
    assert_eq!(shapes.query, HeadsShape { batch: 2, heads: 8, seq_len: 5, head_dim: 8 });
    assert_eq!(shapes.key_value, HeadsShape { batch: 2, heads: 2, seq_len: 5, head_dim: 8 });
    assert_eq!(
        shapes.attended,
        Some(HeadsShape { batch: 2, heads: 8, seq_len: 5, head_dim: 8 })
    );
    assert_eq!(shapes.output, HiddenShape { batch: 2, seq_len: 5, hidden: 64 });
    assert_eq!(cache.past_len(1), 5);
    assert_eq!(cache.past_len(0), 0);

    let shapes = att.forward(2, 1, 64, false, 1, &mut cache).unwrap();
    assert!(!shapes.transposed);
    assert!(!shapes.output_transposed);
    assert_eq!(shapes.rows, 2);
    assert_eq!(
        shapes.attended,
        Some(HeadsShape { batch: 2, heads: 8, seq_len: 6, head_dim: 8 })
    );
    assert_eq!(shapes.output, HiddenShape { batch: 2, seq_len: 1, hidden: 64 });
    assert_eq!(cache.past_len(1), 6);
}

#[test]
fn attention_errors_leave_the_cache_alone() {
    let att = CausalSelfAttention::load(&small_config(), AttentionImplementation::Eager).unwrap();
    let mut cache = KvCache::new(4, 0);
    att.forward(2, 5, 64, true, 0, &mut cache).unwrap();
    assert_eq!(att.forward(2, 5, 32, true, 0, &mut cache), Err(AttentionError::HiddenSize));
    assert_eq!(
        att.forward(usize::MAX, 2, 64, true, 0, &mut cache),
        Err(AttentionError::TooLarge)
    );
    assert_eq!(
        att.forward(3, 1, 64, false, 0, &mut cache),
        Err(AttentionError::Cache(CacheError::ShapeMismatch))
    );
    assert_eq!(
        att.forward(2, 1, 64, false, 4, &mut cache),
        Err(AttentionError::Cache(CacheError::LayerOutOfRange))
    );
    assert_eq!(cache.past_len(0), 5);

    let odd = CausalSelfAttention { hidden_size: 70, ..att };
    assert_eq!(odd.forward(1, 1, 70, false, 0, &mut cache), Err(AttentionError::HiddenSize));
}

#[test]
fn paged_attention_keeps_its_own_store() {
    let att =
        CausalSelfAttention::load(&small_config(), AttentionImplementation::PagedAttention).unwrap();
    let mut cache = KvCache::new(4, 0);
    let quantized = CausalSelfAttention { quantized: true, ..att };
    let shapes = quantized.forward(1, 3, 64, true, 2, &mut cache).unwrap();
    assert_eq!(shapes.attended, None);
    assert!(shapes.upcast);
    assert_eq!(cache.past_len(2), 0);
    assert!(matches!(
        CausalSelfAttention::load(
            &Config { num_attention_heads: 0, ..small_config() },
            AttentionImplementation::Eager
        ),
        Err(ConfigError::NoAttentionHeads)
    ));
}

#[test]
fn causal_mask_hides_the_future_only() {
    let mask = causal_mask(3, 2).unwrap();
    assert_eq!(
        mask,
        vec![
            vec![false, false, false, true, true],
            vec![false, false, false, false, true],
            vec![false, false, false, false, false],
        ]
    );
    assert_eq!(causal_mask(1, 4).unwrap(), vec![vec![false; 5]]);
    assert_eq!(causal_mask(0, 4).unwrap(), Vec::<Vec<bool>>::new());
    assert!(causal_mask(2, usize::MAX).is_none());
}

#[test]
fn prompt_input_pads_to_the_longest() {
    let inputs = get_prompt_input(&vec![vec![5, 6, 7], vec![8], vec![9, 10]]);
    assert_eq!(PADDING_TOKEN, 0);
    assert_eq!(inputs.rows, vec![vec![5, 6, 7], vec![8, 0, 0], vec![9, 10, 0]]);
    assert_eq!(inputs.seqlen_offsets, vec![0, 0, 0]);
    assert_eq!(inputs.context_lens, vec![(2, 1), (0, 1), (1, 1)]);

    let with_empty = get_prompt_input(&vec![vec![], vec![4]]);
    assert_eq!(with_empty.rows, vec![vec![0], vec![4]]);
    assert_eq!(with_empty.context_lens, vec![(0, 0), (0, 1)]);
}

#[test]
fn completion_input_sends_the_last_token() {
    let toks = vec![vec![5, 6, 7], vec![8], vec![9, 10]];
    let inputs = get_completion_input(&toks, false);
    assert_eq!(inputs.rows, vec![vec![7], vec![8], vec![10]]);
    assert_eq!(inputs.seqlen_offsets, vec![2, 0, 1]);
    assert_eq!(inputs.context_lens, vec![(0, 1), (0, 1), (0, 1)]);
}

#[test]
fn completion_input_without_cache_is_the_prompt_input() {
    let toks = vec![vec![5, 6, 7], vec![8], vec![9, 10]];
    let fresh = get_completion_input(&toks, true);
    let prompt = get_prompt_input(&toks);
    assert_eq!(fresh.rows, prompt.rows);
    assert_eq!(fresh.seqlen_offsets, prompt.seqlen_offsets);
    assert_eq!(fresh.context_lens, prompt.context_lens);
    // the logits are read where a decode step would feed its token
    let positions = extract_logits(&prompt.context_lens, 3).unwrap();
    let decode = get_completion_input(&toks, false);
    for i in 0..toks.len() {
        assert_eq!(positions[i], decode.seqlen_offsets[i]);
        assert_eq!(prompt.rows[i][positions[i]], decode.rows[i][0]);
    }
}

#[test]
fn logits_are_read_at_the_end_of_the_context() {
    assert_eq!(extract_logits(&vec![(0, 3), (2, 1), (1, 1)], 3), Ok(vec![2, 2, 1]));
    assert_eq!(extract_logits(&vec![(0, 1)], 1), Ok(vec![0]));
    assert_eq!(extract_logits(&vec![], 0), Ok(vec![]));
    assert_eq!(extract_logits(&vec![(0, 1), (1, 0)], 3), Err(InputError::EmptyContext));
    assert_eq!(extract_logits(&vec![(0, 4)], 3), Err(InputError::OutOfRange));
    assert_eq!(extract_logits(&vec![(3, 1)], 3), Err(InputError::OutOfRange));
    assert_eq!(extract_logits(&vec![(9, 1), (0, 0)], 3), Err(InputError::OutOfRange));
    assert_eq!(extract_logits(&vec![(usize::MAX, usize::MAX)], 3), Err(InputError::OutOfRange));
}

#[test]
fn completion_input_without_cache_takes_an_empty_sequence() {
    let toks = vec![vec![], vec![4, 5]];
    let fresh = get_completion_input(&toks, true);
    assert_eq!(fresh.rows, vec![vec![PADDING_TOKEN, PADDING_TOKEN], vec![4, 5]]);
    assert_eq!(fresh.seqlen_offsets, vec![0, 0]);
    assert_eq!(fresh.context_lens, vec![(0, 0), (1, 1)]);
}
