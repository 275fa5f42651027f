//! The static layout of a Llama-family model: its sizes, the device each
//! layer runs on, the devices of the tensor-parallel fan-out and the
//! per-device key/value caches.

use vstd::prelude::*;
use crate::chunking::{
    block_schedule, chunk_count, chunk_plan, lemma_chunks_tile, plan_block, plan_chunks,
    AttentionStep, Chunk,
};
use crate::forward::{forward_program, plan_forward, ForwardOp};
use crate::config::{
    heads_error, projection_sizes, Config, ConfigError, ModelConfigMetadata, ProjectionSizes,
};
use crate::kv_cache::{empty_slots, update_result, CacheError, KvCache, KvShape};

verus! {

/// The distinct entries of `devs`, each at the place of its first occurrence.
pub open spec fn distinct_in_order(devs: Seq<usize>) -> Seq<usize>
    decreases devs.len(),
{
    if devs.len() == 0 {
        Seq::empty()
    } else {
        let rest = distinct_in_order(devs.drop_last());
        if rest.contains(devs.last()) {
            rest
        } else {
            rest.push(devs.last())
        }
    }
}

/// The fan-out names every device of the map, names nothing else, names
/// nothing twice, and is no longer than the map.
pub proof fn lemma_distinct_in_order(devs: Seq<usize>)
    ensures
        forall|d: usize| distinct_in_order(devs).contains(d) <==> devs.contains(d),
        forall|i: int, j: int|
            0 <= i < j < distinct_in_order(devs).len() ==> distinct_in_order(devs)[i]
                != distinct_in_order(devs)[j],
        distinct_in_order(devs).len() <= devs.len(),
        devs.len() > 0 ==> distinct_in_order(devs).len() > 0,
        devs.len() > 0 ==> distinct_in_order(devs)[0] == devs[0],
    decreases devs.len(),
{
    if devs.len() > 0 {
        let init = devs.drop_last();
        let last = devs.last();
        let rest = distinct_in_order(init);
        lemma_distinct_in_order(init);
        let out = distinct_in_order(devs);
        assert forall|d: usize| out.contains(d) <==> devs.contains(d) by {
            if devs.contains(d) {
                let k = choose|k: int| 0 <= k < devs.len() && devs[k] == d;
                if k < init.len() {
                    assert(init[k] == d);
                    assert(init.contains(d));
                    assert(rest.contains(d));
                    let m = choose|m: int| 0 <= m < rest.len() && rest[m] == d;
                    assert(out[m] == d);
                } else {
                    assert(d == last);
                    if !rest.contains(last) {
                        assert(out[rest.len() as int] == d);
                    }
                }
            }
            if out.contains(d) {
                let m = choose|m: int| 0 <= m < out.len() && out[m] == d;
                if m < rest.len() {
                    assert(rest[m] == d);
                    assert(rest.contains(d));
                    assert(init.contains(d));
                    let k = choose|k: int| 0 <= k < init.len() && init[k] == d;
                    assert(devs[k] == d);
                } else {
                    assert(devs[devs.len() - 1] == d);
                }
            }
        }
        if init.len() == 0 {
            assert(out[0] == devs[0]);
        } else {
            assert(init[0] == devs[0]);
        }
    }
}

fn contains_device(devices: &Vec<usize>, d: usize) -> (found: bool)
    ensures
        found == devices@.contains(d),
{
    let mut i: usize = 0;
    while i < devices.len()
        invariant
            i <= devices.len(),
            forall|k: int| 0 <= k < i ==> devices[k] != d,
        decreases devices.len() - i,
    {
        if devices[i] == d {
            return true;
        }
        i = i + 1;
    }
    false
}

/// The devices used by the layers, each once, in the order in which the
/// layers first use them.
pub fn distinct_devices(layer_devices: &Vec<usize>) -> (devices: Vec<usize>)
    ensures
        devices@ == distinct_in_order(layer_devices@),
{
    let mut devices: Vec<usize> = Vec::new();
    let mut i: usize = 0;
    while i < layer_devices.len()
        invariant
            i <= layer_devices.len(),
            devices@ == distinct_in_order(layer_devices@.take(i as int)),
        decreases layer_devices.len() - i,
    {
        let d = layer_devices[i];
        let seen = contains_device(&devices, d);
        proof {
            assert(layer_devices@.take(i + 1).drop_last() =~= layer_devices@.take(i as int));
        }
        if !seen {
            devices.push(d);
        }
        i = i + 1;
    }
    proof {
        assert(layer_devices@.take(layer_devices.len() as int) =~= layer_devices@);
    }
    devices
}

/// The error, if any, that `Llama::new` reports for a configuration and a
/// device map.
pub open spec fn layout_error(cfg: Config, layer_devices: Seq<usize>) -> Option<ConfigError> {
    if cfg.num_hidden_layers == 0 {
        Some(ConfigError::NoLayers)
    } else if layer_devices.len() != cfg.num_hidden_layers {
        Some(ConfigError::DeviceMapLength)
    } else {
        heads_error(cfg)
    }
}

/// A loaded model's layout.
pub struct Llama {
    cfg: ModelConfigMetadata,
    sizes: ProjectionSizes,
    layer_devices: Vec<usize>,
    devices: Vec<usize>,
    device: usize,
    kv_caches: Vec<KvCache>,
    max_seq_len: usize,
}

impl Llama {
    /// The device of each layer.
    pub closed spec fn layer_devices(&self) -> Seq<usize> {
        self.layer_devices@
    }

    /// The devices of the fan-out.
    pub closed spec fn devices(&self) -> Seq<usize> {
        self.devices@
    }

    /// The primary device: embedding, final norm and output head run there.
    pub closed spec fn primary_device(&self) -> usize {
        self.device
    }

    /// The caches, one per device of the fan-out.
    pub closed spec fn caches(&self) -> Seq<KvCache> {
        self.kv_caches@
    }

    /// The metadata the model was built from.
    pub closed spec fn metadata(&self) -> ModelConfigMetadata {
        self.cfg
    }

    /// The projection sizes.
    pub closed spec fn sizes(&self) -> ProjectionSizes {
        self.sizes
    }

    /// The largest number of positions a sequence may hold.
    pub closed spec fn max_len(&self) -> usize {
        self.max_seq_len
    }

    /// What always holds of a layout: one device per layer, at least one
    /// layer, the fan-out is the distinct devices of the map, and each device
    /// of the fan-out has a cache with one slot per layer.
    pub open spec fn wf(&self) -> bool {
        &&& self.layer_devices().len() == self.metadata().num_layers
        &&& self.metadata().num_layers > 0
        &&& self.devices() == distinct_in_order(self.layer_devices())
        &&& self.caches().len() == self.devices().len()
        &&& forall|i: int|
            0 <= i < self.caches().len() ==> (#[trigger] self.caches()[i])@.device
                == self.devices()[i] && self.caches()[i]@.slots.len()
                == self.metadata().num_layers
    }

    /// Lays a model out: checks the configuration against the device map,
    /// collects the fan-out and gives every device of it an empty cache.
    pub fn new(cfg: &Config, layer_devices: Vec<usize>, primary_device: usize) -> (r: Result<
        Llama,
        ConfigError,
    >)
        ensures
            match layout_error(*cfg, layer_devices@) {
                Some(e) => r is Err && r->Err_0 == e,
                None => r is Ok && r->Ok_0.wf() && r->Ok_0.layer_devices() == layer_devices@
                    && r->Ok_0.primary_device() == primary_device && r->Ok_0.metadata() == (
                ModelConfigMetadata {
                    num_layers: cfg.num_hidden_layers,
                    hidden_size: cfg.hidden_size,
                    num_kv_heads: cfg.num_key_value_heads,
                    num_attn_heads: cfg.num_attention_heads,
                    sliding_window: None,
                }) && r->Ok_0.sizes() == projection_sizes(*cfg) && r->Ok_0.max_len()
                    == cfg.max_position_embeddings && forall|i: int|
                    0 <= i < r->Ok_0.caches().len() ==> (#[trigger] r->Ok_0.caches()[i])@.slots
                        == empty_slots(cfg.num_hidden_layers as nat),
            },
    {
        if cfg.num_hidden_layers == 0 {
            return Err(ConfigError::NoLayers);
        }
        if layer_devices.len() != cfg.num_hidden_layers {
            return Err(ConfigError::DeviceMapLength);
        }
        let sizes = match cfg.projections() {
            Ok(s) => s,
            Err(e) => {
                return Err(e);
            },
        };
        let devices = distinct_devices(&layer_devices);
        let mut kv_caches: Vec<KvCache> = Vec::new();
        let mut i: usize = 0;
        while i < devices.len()
            invariant
                i <= devices.len(),
                kv_caches.len() == i,
                forall|k: int|
                    0 <= k < i ==> (#[trigger] kv_caches[k])@.device == devices[k]
                        && kv_caches[k]@.slots == empty_slots(cfg.num_hidden_layers as nat),
            decreases devices.len() - i,
        {
            kv_caches.push(KvCache::new(cfg.num_hidden_layers, devices[i]));
            i = i + 1;
        }
        Ok(
            Llama {
                cfg: cfg.metadata(),
                sizes,
                layer_devices,
                devices,
                device: primary_device,
                kv_caches,
                max_seq_len: cfg.max_position_embeddings,
            },
        )
    }

    /// The primary device.
    pub fn device(&self) -> (d: usize)
        ensures
            d == self.primary_device(),
    {
        self.device
    }

    /// The largest number of positions a sequence may hold.
    pub fn max_seq_len(&self) -> (n: usize)
        ensures
            n == self.max_len(),
    {
        self.max_seq_len
    }

    /// The metadata handed to cache and attention back ends.
    pub fn config(&self) -> (m: &ModelConfigMetadata)
        ensures
            *m == self.metadata(),
    {
        &self.cfg
    }

    /// The projection sizes of the attention layers.
    pub fn projection_sizes(&self) -> (s: ProjectionSizes)
        ensures
            s == self.sizes(),
    {
        self.sizes
    }

    /// Adapter-mixing models are a different kind of model.
    pub fn is_xlora(&self) -> (b: bool)
        ensures
            !b,
    {
        false
    }

    /// Number of devices in the fan-out.
    pub fn num_devices(&self) -> (n: usize)
        requires
            self.wf(),
        ensures
            n == self.devices().len(),
            n > 0,
    {
        proof {
            lemma_distinct_in_order(self.layer_devices@);
        }
        self.devices.len()
    }

    /// The device at place `i` of the fan-out.
    pub fn fan_out_device(&self, i: usize) -> (d: Option<usize>)
        ensures
            d == if i < self.devices().len() {
                Some(self.devices()[i as int])
            } else {
                None
            },
    {
        if i < self.devices.len() {
            Some(self.devices[i])
        } else {
            None
        }
    }

    /// The device a layer runs on.
    pub fn device_for(&self, layer: usize) -> (d: Option<usize>)
        ensures
            d == if layer < self.layer_devices().len() {
                Some(self.layer_devices()[layer as int])
            } else {
                None
            },
    {
        if layer < self.layer_devices.len() {
            Some(self.layer_devices[layer])
        } else {
            None
        }
    }

    /// The cache of the first device of the fan-out.
    pub fn cache(&self) -> (c: &KvCache)
        requires
            self.wf(),
        ensures
            *c == self.caches()[0],
    {
        proof {
            lemma_distinct_in_order(self.layer_devices@);
        }
        &self.kv_caches[0]
    }

    /// The cache at place `i` of the fan-out.
    pub fn cache_at(&self, i: usize) -> (c: Option<&KvCache>)
        ensures
            match c {
                Some(c) => i < self.caches().len() && *c == self.caches()[i as int],
                None => i >= self.caches().len(),
            },
    {
        if i < self.kv_caches.len() {
            Some(&self.kv_caches[i])
        } else {
            None
        }
    }

    /// The chunks of a forward pass over `seq_len` positions.
    pub fn plan_chunks(&self, seq_len: usize) -> (chunks: Vec<Chunk>)
        requires
            self.wf(),
        ensures
            chunks@ == chunk_plan(seq_len as nat, self.devices().len()),
    {
        let n = self.num_devices();
        plan_chunks(seq_len, n)
    }

    /// The attention steps of one block for `num_chunks` chunks; nothing when
    /// there are more chunks than caches or the schedule would not fit the
    /// machine word.
    pub fn plan_block(&self, num_chunks: usize) -> (steps: Option<Vec<AttentionStep>>)
        ensures
            match steps {
                Some(s) => num_chunks <= self.caches().len() && s@ == block_schedule(
                    num_chunks as nat,
                    self.caches().len(),
                ),
                None => num_chunks > self.caches().len() || num_chunks * self.caches().len()
                    > usize::MAX,
            },
    {
        let n = self.kv_caches.len();
        if num_chunks > n {
            return None;
        }
        match num_chunks.checked_mul(n) {
            Some(_) => Some(plan_block(num_chunks, n)),
            None => None,
        }
    }

    /// The operations of a forward pass over `seq_len` positions, in the
    /// order in which they run: every block with the attention steps of the
    /// pass's chunks over the model's caches. Nothing if their number does
    /// not fit the machine word.
    pub fn plan_forward(&self, seq_len: usize) -> (ops: Option<Vec<ForwardOp>>)
        requires
            self.wf(),
        ensures
            ops matches Some(program) ==> program@ == forward_program(
                self.metadata().num_layers as nat,
                block_schedule(
                    chunk_count(seq_len as nat, self.devices().len()),
                    self.caches().len(),
                ),
            ),
            ops is None ==> chunk_count(seq_len as nat, self.devices().len()) * self.caches().len()
                > usize::MAX || self.metadata().num_layers * (chunk_count(
                seq_len as nat,
                self.devices().len(),
            ) * self.caches().len() + 6) + 4 > usize::MAX,
    {
        let chunks = self.plan_chunks(seq_len);
        proof {
            lemma_chunks_tile(seq_len as nat, self.devices().len());
            lemma_distinct_in_order(self.layer_devices@);
        }
        match self.plan_block(chunks.len()) {
            None => None,
            Some(steps) => plan_forward(self.cfg.num_layers, &steps),
        }
    }

    /// Appends to one layer of one cache. A refused append, or a cache that
    /// does not exist, leaves every cache as it was.
    pub fn update_cache(&mut self, cache: usize, layer: usize, incoming: KvShape) -> (r: Option<
        Result<KvShape, CacheError>,
    >)
        requires
            old(self).wf(),
        ensures
            final(self).wf(),
            final(self).layer_devices() == old(self).layer_devices(),
            final(self).primary_device() == old(self).primary_device(),
            final(self).metadata() == old(self).metadata(),
            final(self).sizes() == old(self).sizes(),
            final(self).max_len() == old(self).max_len(),
            final(self).caches().len() == old(self).caches().len(),
            cache >= old(self).caches().len() ==> r is None && final(self).caches() == old(
                self,
            ).caches(),
            cache < old(self).caches().len() ==> r == Some(
                update_result(old(self).caches()[cache as int]@.slots, layer as nat, incoming),
            ),
            forall|i: int|
                0 <= i < old(self).caches().len() && i != cache ==> final(self).caches()[i] == old(
                    self,
                ).caches()[i],
            r matches Some(Ok(shape)) ==> final(self).caches()[cache as int]@.slots == old(
                self,
            ).caches()[cache as int]@.slots.update(layer as int, Some(shape)),
            r matches Some(Err(_)) ==> final(self).caches()[cache as int]@ == old(
                self,
            ).caches()[cache as int]@,
    {
        if cache >= self.kv_caches.len() {
            return None;
        }
        let mut c = self.kv_caches.remove(cache);
        let r = c.update(layer, incoming);
        self.kv_caches.insert(cache, c);
        proof {
            assert(self.kv_caches@.len() == old(self).kv_caches@.len());
            assert forall|i: int| 0 <= i < self.kv_caches@.len() && i != cache implies self.kv_caches@[i]
                == old(self).kv_caches@[i] by {}
        }
        Some(r)
    }

    /// Empties every cache.
    pub fn reset_caches(&mut self)
        requires
            old(self).wf(),
        ensures
            final(self).wf(),
            final(self).layer_devices() == old(self).layer_devices(),
            final(self).primary_device() == old(self).primary_device(),
            final(self).metadata() == old(self).metadata(),
            final(self).sizes() == old(self).sizes(),
            final(self).max_len() == old(self).max_len(),
            final(self).caches().len() == old(self).caches().len(),
            forall|i: int|
                0 <= i < final(self).caches().len() ==> (#[trigger] final(self).caches()[i])@.slots
                    == empty_slots(final(self).metadata().num_layers as nat),
    {
        let n = self.kv_caches.len();
        let mut fresh: Vec<KvCache> = Vec::new();
        let mut i: usize = 0;
        while i < n
            invariant
                i <= n,
                n == self.devices.len(),
                fresh.len() == i,
                forall|k: int|
                    0 <= k < i ==> (#[trigger] fresh[k])@.device == self.devices[k]
                        && fresh[k]@.slots == empty_slots(self.cfg.num_layers as nat),
            decreases n - i,
        {
            fresh.push(KvCache::new(self.cfg.num_layers, self.devices[i]));
            i = i + 1;
        }
        self.kv_caches = fresh;
    }
}

} // verus!
