//! Book-keeping for the per-layer key/value caches.
//!
//! The tensors themselves live with the code that runs the model. This module
//! records, for every layer, the shape `[batch, kv_heads, past_len, head_dim]`
//! of the stored pair and the device the cache is resident on, and checks
//! every append against it.

use vstd::prelude::*;

verus! {

/// The shape shared by the key and the value tensor of one layer.
#[derive(Clone, Copy, Debug, PartialEq, Eq, Structural)]
pub struct KvShape {
    pub batch: usize,
    pub kv_heads: usize,
    pub past_len: usize,
    pub head_dim: usize,
}

/// Why an append was refused.
#[derive(Clone, Copy, Debug, PartialEq, Eq, Structural)]
pub enum CacheError {
    /// The layer index is not below the number of layers.
    LayerOutOfRange,
    /// Batch size, head count or head width differ from what is stored.
    ShapeMismatch,
    /// The new past length does not fit the machine word.
    TooLong,
    /// A staged copy has other layers than the cache, or a layer with fewer
    /// positions than the cache holds.
    StaleCopy,
}

/// What a cache holds: one optional shape per layer, and the device of
/// record.
pub struct KvCacheView {
    pub slots: Seq<Option<KvShape>>,
    pub device: nat,
}

/// The per-layer caches resident on one device.
pub struct KvCache {
    slots: Vec<Option<KvShape>>,
    device: usize,
}

/// Whether `incoming` can be appended to `slot` along the sequence axis.
pub open spec fn compatible(slot: Option<KvShape>, incoming: KvShape) -> bool {
    match slot {
        None => true,
        Some(s) => s.batch == incoming.batch && s.kv_heads == incoming.kv_heads && s.head_dim
            == incoming.head_dim,
    }
}

/// Past length recorded in a slot; an empty slot has none.
pub open spec fn slot_past_len(slot: Option<KvShape>) -> nat {
    match slot {
        None => 0,
        Some(s) => s.past_len as nat,
    }
}

/// The slot after `incoming` was appended along the sequence axis.
pub open spec fn appended(slot: Option<KvShape>, incoming: KvShape) -> Option<KvShape> {
    Some(
        KvShape {
            batch: incoming.batch,
            kv_heads: incoming.kv_heads,
            past_len: (slot_past_len(slot) + incoming.past_len) as usize,
            head_dim: incoming.head_dim,
        },
    )
}

/// The outcome that `update` owes for a cache, a layer and an incoming shape.
pub open spec fn update_result(
    slots: Seq<Option<KvShape>>,
    layer: nat,
    incoming: KvShape,
) -> Result<KvShape, CacheError> {
    if layer >= slots.len() {
        Err(CacheError::LayerOutOfRange)
    } else if !compatible(slots[layer as int], incoming) {
        Err(CacheError::ShapeMismatch)
    } else if slot_past_len(slots[layer as int]) + incoming.past_len > usize::MAX {
        Err(CacheError::TooLong)
    } else {
        Ok(appended(slots[layer as int], incoming)->0)
    }
}

/// Whether `after` has the layers of `before` and no layer with fewer
/// positions.
pub open spec fn grown_from(before: Seq<Option<KvShape>>, after: Seq<Option<KvShape>>) -> bool {
    &&& after.len() == before.len()
    &&& forall|l: int|
        0 <= l < before.len() ==> slot_past_len(#[trigger] before[l]) <= slot_past_len(after[l])
}

/// `num_layers` empty slots.
pub open spec fn empty_slots(num_layers: nat) -> Seq<Option<KvShape>> {
    Seq::new(num_layers, |l: int| None::<KvShape>)
}

/// The slots after `incoming` was appended to every layer.
pub open spec fn advance_all(slots: Seq<Option<KvShape>>, incoming: KvShape) -> Seq<
    Option<KvShape>,
> {
    Seq::new(slots.len(), |l: int| appended(slots[l], incoming))
}

/// The slots after a run of forward steps, each of which appends
/// `steps[i]` positions to every layer.
pub open spec fn after_steps(
    slots: Seq<Option<KvShape>>,
    geometry: KvShape,
    steps: Seq<nat>,
) -> Seq<Option<KvShape>>
    decreases steps.len(),
{
    if steps.len() == 0 {
        slots
    } else {
        advance_all(
            after_steps(slots, geometry, steps.drop_last()),
            KvShape { past_len: steps.last() as usize, ..geometry },
        )
    }
}

/// Sum of the entries of `steps`.
pub open spec fn total(steps: Seq<nat>) -> nat
    decreases steps.len(),
{
    if steps.len() == 0 {
        0
    } else {
        total(steps.drop_last()) + steps.last()
    }
}

/// Cache length consistency: starting from an empty cache, after forward
/// steps that together processed `total(steps)` positions, every layer's
/// past length is `total(steps)`, as long as that total fits the machine
/// word.
pub proof fn lemma_past_len_is_positions_processed(
    num_layers: nat,
    geometry: KvShape,
    steps: Seq<nat>,
)
    requires
        total(steps) <= usize::MAX,
    ensures
        after_steps(empty_slots(num_layers), geometry, steps).len() == num_layers,
        forall|l: int|
            0 <= l < num_layers ==> slot_past_len(
                #[trigger] after_steps(empty_slots(num_layers), geometry, steps)[l],
            ) == total(steps),
    decreases steps.len(),
{
    if steps.len() > 0 {
        lemma_past_len_is_positions_processed(num_layers, geometry, steps.drop_last());
    }
}

/// Appending never shortens a slot.
pub proof fn lemma_append_grows(slot: Option<KvShape>, incoming: KvShape)
    requires
        slot_past_len(slot) + incoming.past_len <= usize::MAX,
    ensures
        slot_past_len(appended(slot, incoming)) == slot_past_len(slot) + incoming.past_len,
        slot_past_len(appended(slot, incoming)) >= slot_past_len(slot),
{
}

impl KvCache {
    pub closed spec fn view(&self) -> KvCacheView {
        KvCacheView { slots: self.slots@, device: self.device as nat }
    }

    /// A cache of `num_layers` empty slots, resident on `device`.
    pub fn new(num_layers: usize, device: usize) -> (cache: KvCache)
        ensures
            cache@.slots == empty_slots(num_layers as nat),
            cache@.device == device,
    {
        let mut slots: Vec<Option<KvShape>> = Vec::new();
        let mut l: usize = 0;
        while l < num_layers
            invariant
                l <= num_layers,
                slots.len() == l,
                forall|i: int| 0 <= i < l ==> slots[i] == None::<KvShape>,
            decreases num_layers - l,
        {
            slots.push(None);
            l = l + 1;
        }
        proof {
            assert(slots@ =~= empty_slots(num_layers as nat));
        }
        KvCache { slots, device }
    }

    /// Number of layers.
    pub fn num_layers(&self) -> (n: usize)
        ensures
            n == self@.slots.len(),
    {
        self.slots.len()
    }

    /// The device of record.
    pub fn device(&self) -> (d: usize)
        ensures
            d == self@.device,
    {
        self.device
    }

    /// The stored shape of a layer, if the layer exists and holds anything.
    pub fn slot(&self, layer: usize) -> (s: Option<KvShape>)
        ensures
            s == if layer < self@.slots.len() {
                self@.slots[layer as int]
            } else {
                None
            },
    {
        if layer < self.slots.len() {
            self.slots[layer]
        } else {
            None
        }
    }

    /// Number of positions already stored for a layer; zero for an empty or
    /// missing layer.
    pub fn past_len(&self, layer: usize) -> (n: usize)
        ensures
            n == if layer < self@.slots.len() {
                slot_past_len(self@.slots[layer as int])
            } else {
                0
            },
    {
        match self.slot(layer) {
            Some(s) => s.past_len,
            None => 0,
        }
    }

    /// Whether a tensor on device `from` has to be moved before it can be
    /// appended to this cache.
    pub fn needs_transfer(&self, from: usize) -> (b: bool)
        ensures
            b == (from != self@.device),
    {
        from != self.device
    }

    /// Appends `incoming.past_len` positions to a layer and returns the new
    /// shape of the layer. A refused append leaves the cache as it was.
    pub fn update(&mut self, layer: usize, incoming: KvShape) -> (r: Result<KvShape, CacheError>)
        ensures
            r == update_result(old(self)@.slots, layer as nat, incoming),
            final(self)@.device == old(self)@.device,
            r is Err ==> final(self)@ == old(self)@,
            r is Ok ==> final(self)@.slots == old(self)@.slots.update(layer as int, Some(r->Ok_0)),
    {
        if layer >= self.slots.len() {
            return Err(CacheError::LayerOutOfRange);
        }
        let past = match self.slots[layer] {
            None => 0,
            Some(s) => {
                if s.batch != incoming.batch || s.kv_heads != incoming.kv_heads || s.head_dim
                    != incoming.head_dim {
                    return Err(CacheError::ShapeMismatch);
                }
                s.past_len
            },
        };
        if incoming.past_len > usize::MAX - past {
            return Err(CacheError::TooLong);
        }
        let shape = KvShape {
            batch: incoming.batch,
            kv_heads: incoming.kv_heads,
            past_len: past + incoming.past_len,
            head_dim: incoming.head_dim,
        };
        self.slots.set(layer, Some(shape));
        Ok(shape)
    }

    /// A copy of this cache placed on `device`, for the time of one
    /// attention call. The cache itself stays where it is.
    pub fn staged_on(&self, device: usize) -> (staged: KvCache)
        ensures
            staged@.slots == self@.slots,
            staged@.device == device,
    {
        let mut slots: Vec<Option<KvShape>> = Vec::new();
        let mut l: usize = 0;
        while l < self.slots.len()
            invariant
                l <= self.slots.len(),
                slots.len() == l,
                forall|i: int| 0 <= i < l ==> slots[i] == self.slots[i],
            decreases self.slots.len() - l,
        {
            slots.push(self.slots[l]);
            l = l + 1;
        }
        proof {
            assert(slots@ =~= self.slots@);
        }
        KvCache { slots, device }
    }

    /// Takes over what a staged copy holds after the attention call; the
    /// device of record stays the same. A copy that has not as many layers
    /// as the cache, or a layer with fewer positions than the cache holds,
    /// is refused and the cache left as it was: the past only grows.
    pub fn restore(&mut self, staged: KvCache) -> (r: Result<(), CacheError>)
        ensures
            final(self)@.device == old(self)@.device,
            grown_from(old(self)@.slots, staged@.slots) ==> r is Ok && final(self)@.slots
                == staged@.slots,
            !grown_from(old(self)@.slots, staged@.slots) ==> r == Err::<(), CacheError>(
                CacheError::StaleCopy,
            ) && final(self)@ == old(self)@,
    {
        if staged.slots.len() != self.slots.len() {
            return Err(CacheError::StaleCopy);
        }
        let mut l: usize = 0;
        while l < self.slots.len()
            invariant
                l <= self.slots.len(),
                staged.slots.len() == self.slots.len(),
                forall|k: int|
                    0 <= k < l ==> slot_past_len(#[trigger] self.slots@[k]) <= slot_past_len(
                        staged.slots@[k],
                    ),
            decreases self.slots.len() - l,
        {
            let had = match self.slots[l] {
                Some(s) => s.past_len,
                None => 0,
            };
            let has = match staged.slots[l] {
                Some(s) => s.past_len,
                None => 0,
            };
            if has < had {
                return Err(CacheError::StaleCopy);
            }
            l = l + 1;
        }
        self.slots = staged.slots;
        Ok(())
    }

    /// Empties every layer, as when the sequences that used the cache retire.
    pub fn reset(&mut self)
        ensures
            final(self)@.slots == empty_slots(old(self)@.slots.len()),
            final(self)@.device == old(self)@.device,
    {
        let n = self.slots.len();
        let mut l: usize = 0;
        while l < n
            invariant
                l <= n,
                self.slots.len() == n,
                self.device == old(self).device,
                forall|i: int| 0 <= i < l ==> self.slots[i] == None::<KvShape>,
            decreases n - l,
        {
            self.slots.set(l, None);
            l = l + 1;
        }
        proof {
            assert(self.slots@ =~= empty_slots(n as nat));
        }
    }
}

} // verus!
