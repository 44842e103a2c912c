//! A decoder whose rows live on a device: what can live there, and what it takes.

use vstd::prelude::*;
use crate::config::RopeStyle;
use crate::device::ResidentLayerKind;
use crate::error::{Fault, InferError};
use crate::kernel::{functional, Kernel};
use crate::layer::{AttentionBlock, DecoderLayer};
use crate::linear::FeedForward;
use crate::model::{step, CacheView, CausalDecoderCache, DecoderModel};
use crate::mtp_head::MtpHead;
use crate::tensor::Tensor;
use crate::weights::MoeMlp;

verus! {

/// Steps of a pipeline that may be under way at once.
pub const RESIDENT_PIPELINE_WINDOW: usize = 4;

/// Rows of states that a draft head keeps to check.
pub const VERIFY_ROWS: usize = 3;

/// Why a layer cannot live on a device.
#[derive(Clone, Copy, PartialEq, Eq, Structural, Debug)]
pub enum LayerObstacle {
    PartialFeedForwardNorms,
    NoFeedForward,
    NoPostAttentionNorm,
    SharedExpertsWithNorms,
    ExpertsNotEncodable,
    FeedForwardBias,
    AttentionBias,
    NoQueryNorm,
    NoKeyNorm,
    Unknown,
}

/// Why a decoder cannot live on a device.
#[derive(Clone, Copy, PartialEq, Eq, Structural, Debug)]
pub enum DecoderObstacle {
    NoDevice,
    NoHeadSize,
    Heads,
    OutputBias,
    NoRope,
    RopePairs,
    RopeScale,
    LinearLayersOff,
    Layer(usize, LayerObstacle),
}

/// The experts come with one that every token passes.
pub open spec fn shares_expert<C>(moe: MoeMlp<C>) -> bool {
    moe.shared_expert is Some && moe.shared_expert_gate is Some
}

/// The experts are routed ones only.
pub open spec fn routes_only<C>(moe: MoeMlp<C>) -> bool {
    moe.shared_expert is None && moe.shared_expert_gate is None
}

/// Why a layer cannot live on a device.
pub open spec fn layer_obstacle<C>(layer: DecoderLayer<C>) -> Option<LayerObstacle> {
    if layer.pre_feedforward_norm is Some != layer.post_feedforward_norm is Some {
        Some(LayerObstacle::PartialFeedForwardNorms)
    } else if layer.mlp is None {
        Some(LayerObstacle::NoFeedForward)
    } else if layer.post_attention_norm is None {
        Some(LayerObstacle::NoPostAttentionNorm)
    } else if feed_obstacle(layer) is Some {
        feed_obstacle(layer)
    } else {
        attention_obstacle(layer)
    }
}

pub open spec fn feed_obstacle<C>(layer: DecoderLayer<C>) -> Option<LayerObstacle> {
    match layer.mlp {
        Some(FeedForward::Moe(moe)) => if layer.pre_feedforward_norm is Some && shares_expert(moe) {
            Some(LayerObstacle::SharedExpertsWithNorms)
        } else if !shares_expert(moe) && !routes_only(moe) {
            Some(LayerObstacle::ExpertsNotEncodable)
        } else {
            None
        },
        Some(FeedForward::Dense(mlp)) => if mlp.gate_proj.bias is Some || mlp.up_proj.bias is Some || mlp.down_proj.bias is Some {
            Some(LayerObstacle::FeedForwardBias)
        } else {
            None
        },
        None => None,
    }
}

pub open spec fn attention_obstacle<C>(layer: DecoderLayer<C>) -> Option<LayerObstacle> {
    match layer.attention {
        AttentionBlock::Full(attention) => if attention.q_proj.bias is Some || attention.k_proj.bias is Some || (match attention.v_proj {
            Some(v_proj) => v_proj.bias is Some,
            None => attention.k_proj.bias is Some,
        }) || attention.o_proj.bias is Some {
            Some(LayerObstacle::AttentionBias)
        } else if attention.q_norm is None {
            Some(LayerObstacle::NoQueryNorm)
        } else if attention.k_norm is None {
            Some(LayerObstacle::NoKeyNorm)
        } else {
            None
        },
        AttentionBlock::Linear(_) => None,
    }
}

/// A layer can live on a device: it has no norms round its feed-forward block, nothing
/// stands in its way, and the keys do not serve as values.
pub open spec fn layer_can_live<C>(layer: DecoderLayer<C>) -> bool {
    &&& layer.pre_feedforward_norm is None
    &&& layer.mlp is Some
    &&& layer.post_attention_norm is Some
    &&& feed_obstacle(layer) is None
    &&& attention_obstacle(layer) is None
    &&& layer.attention matches AttentionBlock::Full(attention) ==> attention.v_proj is Some
}

fn feed_stands_in_the_way<C: Copy>(layer: &DecoderLayer<C>) -> (obstacle: Option<LayerObstacle>)
    ensures
        obstacle == feed_obstacle(*layer),
{
    match &layer.mlp {
        Some(FeedForward::Moe(moe)) => {
            let shared: bool = moe.shared_expert.is_some() && moe.shared_expert_gate.is_some();
            let routed: bool = moe.shared_expert.is_none() && moe.shared_expert_gate.is_none();
            if layer.pre_feedforward_norm.is_some() && shared {
                Some(LayerObstacle::SharedExpertsWithNorms)
            } else if !shared && !routed {
                Some(LayerObstacle::ExpertsNotEncodable)
            } else {
                None
            }
        },
        Some(FeedForward::Dense(mlp)) => if mlp.gate_proj.bias.is_some() || mlp.up_proj.bias.is_some() || mlp.down_proj.bias.is_some() {
            Some(LayerObstacle::FeedForwardBias)
        } else {
            None
        },
        None => None,
    }
}

fn attention_stands_in_the_way<C: Copy>(layer: &DecoderLayer<C>) -> (obstacle: Option<LayerObstacle>)
    ensures
        obstacle == attention_obstacle(*layer),
{
    match &layer.attention {
        AttentionBlock::Full(attention) => {
            let values: bool = match &attention.v_proj {
                Some(v_proj) => v_proj.bias.is_some(),
                None => attention.k_proj.bias.is_some(),
            };
            if attention.q_proj.bias.is_some() || attention.k_proj.bias.is_some() || values || attention.o_proj.bias.is_some() {
                Some(LayerObstacle::AttentionBias)
            } else if attention.q_norm.is_none() {
                Some(LayerObstacle::NoQueryNorm)
            } else if attention.k_norm.is_none() {
                Some(LayerObstacle::NoKeyNorm)
            } else {
                None
            }
        },
        AttentionBlock::Linear(_) => None,
    }
}

/// Why a layer cannot live on a device.
pub fn resident_full_layer_unsupported_reason<C: Copy>(layer: &DecoderLayer<C>) -> (obstacle: Option<LayerObstacle>)
    ensures
        obstacle == layer_obstacle(*layer),
{
    if layer.pre_feedforward_norm.is_some() != layer.post_feedforward_norm.is_some() {
        return Some(LayerObstacle::PartialFeedForwardNorms);
    }
    if layer.mlp.is_none() {
        return Some(LayerObstacle::NoFeedForward);
    }
    if layer.post_attention_norm.is_none() {
        return Some(LayerObstacle::NoPostAttentionNorm);
    }
    match feed_stands_in_the_way(layer) {
        Some(obstacle) => Some(obstacle),
        None => attention_stands_in_the_way(layer),
    }
}

impl<C: Copy> DecoderLayer<C> {
    /// Whether the layer can live on a device.
    pub fn supports_resident_full(&self) -> (can: bool)
        ensures
            can == layer_can_live(*self),
    {
        if self.pre_feedforward_norm.is_some() || self.mlp.is_none() || self.post_attention_norm.is_none() {
            return false;
        }
        if feed_stands_in_the_way(self).is_some() || attention_stands_in_the_way(self).is_some() {
            return false;
        }
        match &self.attention {
            AttentionBlock::Full(attention) => attention.v_proj.is_some(),
            AttentionBlock::Linear(_) => true,
        }
    }
}

/// What a device says of itself, and what it is allowed.
pub struct DeviceFacts {
    pub present: bool,
    /// The linear layers may live on it.
    pub linear_layers: bool,
    /// The query, key and value maps of a layer may be joined to one.
    pub join_maps: bool,
    /// For each layer, whether the device can join its maps.
    pub joins: Vec<bool>,
    /// Whether the device can join the maps of the draft head.
    pub head_joins: bool,
    /// Times are taken layer by layer.
    pub timed: bool,
}

impl DeviceFacts {
    pub open spec fn joins_at(&self, layer: int) -> bool {
        self.join_maps && layer < self.joins@.len() && self.joins@[layer]
    }

    fn join_layer(&self, layer: usize) -> (joined: bool)
        ensures
            joined == self.joins_at(layer as int),
    {
        self.join_maps && layer < self.joins.len() && self.joins[layer]
    }
}

/// Every key head serves the same number of query heads.
pub open spec fn heads_divide<K: Kernel>(m: DecoderModel<K>) -> bool {
    &&& m.config.num_attention_heads > 0
    &&& m.config.num_key_value_heads > 0
    &&& m.config.num_attention_heads % m.config.num_key_value_heads == 0
}

/// Layers from `l` on: the first that cannot live on a device.
pub open spec fn first_obstacle<C>(layers: Seq<DecoderLayer<C>>, l: int) -> Option<DecoderObstacle>
    decreases layers.len() - l,
{
    if l < 0 || l >= layers.len() {
        None
    } else if layer_can_live(layers[l]) {
        first_obstacle(layers, l + 1)
    } else {
        Some(
            DecoderObstacle::Layer(
                l as usize,
                match layer_obstacle(layers[l]) {
                    Some(obstacle) => obstacle,
                    None => LayerObstacle::Unknown,
                },
            ),
        )
    }
}

/// Why a decoder cannot live on a device.
pub open spec fn decoder_obstacle<K: Kernel>(m: DecoderModel<K>, facts: DeviceFacts) -> Option<DecoderObstacle> {
    if !facts.present {
        Some(DecoderObstacle::NoDevice)
    } else if m.config.head_dim is None {
        Some(DecoderObstacle::NoHeadSize)
    } else if !heads_divide(m) {
        Some(DecoderObstacle::Heads)
    } else if m.lm_head.bias is Some {
        Some(DecoderObstacle::OutputBias)
    } else if m.config.rope_theta is None {
        Some(DecoderObstacle::NoRope)
    } else if m.config.rope_style != RopeStyle::Halves {
        Some(DecoderObstacle::RopePairs)
    } else if m.config.rope_position_scale is Some {
        Some(DecoderObstacle::RopeScale)
    } else if !facts.linear_layers && exists|i: int| 0 <= i < m.layers@.len() && !(#[trigger] m.config.full_attention_at(i)) {
        Some(DecoderObstacle::LinearLayersOff)
    } else {
        first_obstacle(m.layers@, 0)
    }
}

/// Keys and values of a layer on a device.
#[derive(Clone, Copy, PartialEq, Eq, Structural, Debug)]
pub struct KvRoom {
    /// Positions that it can hold.
    pub capacity: usize,
    /// Positions that it holds.
    pub len: usize,
    /// Whether tokens will be drawn and not only the best one taken.
    pub sampled: bool,
}

/// What a draft head takes on a device.
#[derive(Clone, Copy, PartialEq, Eq, Structural, Debug)]
pub struct HeadArena {
    pub room: KvRoom,
    /// Its query, key and value maps are joined to one.
    pub joined: bool,
    /// Tokens that it can draft at once.
    pub drafts: usize,
    /// Numbers of the states that it keeps to check.
    pub verify_cells: usize,
    /// Numbers of two rows side by side.
    pub pair_cells: usize,
    /// Which of its two hidden rows is the latest.
    pub current_is_a: bool,
    /// Positions that it has yet to be told of.
    pub pending_start: usize,
    pub pending_count: usize,
}

/// What a decoder takes on a device.
pub struct ResidentArena {
    pub kinds: Vec<ResidentLayerKind>,
    pub joined: Vec<bool>,
    pub hidden: usize,
    /// Tokens of a pipeline that stand on the device at once.
    pub ring: usize,
    /// Pairs of hidden rows for the steps of a pipeline.
    pub pipeline_ring: usize,
    /// Which stream the scratch rows belong to.
    pub namespace: u64,
    pub timed: bool,
    pub head: Option<HeadArena>,
}

/// The contents of a [`ResidentArena`].
#[verifier::ext_equal]
pub struct ArenaView {
    pub kinds: Seq<ResidentLayerKind>,
    pub joined: Seq<bool>,
    pub hidden: usize,
    pub ring: usize,
    pub pipeline_ring: usize,
    pub namespace: u64,
    pub timed: bool,
    pub head: Option<HeadArena>,
}

impl View for ResidentArena {
    type V = ArenaView;

    open spec fn view(&self) -> ArenaView {
        ArenaView {
            kinds: self.kinds@,
            joined: self.joined@,
            hidden: self.hidden,
            ring: self.ring,
            pipeline_ring: self.pipeline_ring,
            namespace: self.namespace,
            timed: self.timed,
            head: self.head,
        }
    }
}

/// What the layers have seen, with what of it stands on a device.
pub struct ResidentCache<C> {
    pub cache: CausalDecoderCache<C>,
    pub rooms: Vec<Option<KvRoom>>,
    pub arena: Option<ResidentArena>,
}

/// Numbers of the keys of so many positions.
pub open spec fn kv_cells<K: Kernel>(m: DecoderModel<K>, head_dim: usize, positions: int) -> int {
    positions * (m.config.num_key_value_heads * head_dim)
}

/// A layer's keys and values are those of all positions.
pub open spec fn seedable<K: Kernel>(m: DecoderModel<K>, head_dim: usize, cache: CacheView<K::Cell>, layer: int) -> bool {
    &&& cache.layers[layer].keys.len() == kv_cells(m, head_dim, cache.position)
    &&& cache.layers[layer].values.len() == kv_cells(m, head_dim, cache.position)
}

/// The decoder's heads can stand on a device.
pub open spec fn has_heads<K: Kernel>(m: DecoderModel<K>) -> bool {
    heads_divide(m) && m.config.head_dim is Some && m.config.head_dim->0 > 0
}

/// Rooms for the full layers whose keys and values are complete.
pub open spec fn rooms_due<K: Kernel>(m: DecoderModel<K>, cache: CacheView<K::Cell>, room: KvRoom) -> Seq<Option<KvRoom>> {
    Seq::new(
        cache.layers.len(),
        |i: int|
            if m.config.full_attention_at(i) && seedable(m, m.config.head_dim->0, cache, i) {
                Some(room)
            } else {
                None
            },
    )
}

/// No rooms.
pub open spec fn no_rooms(count: nat) -> Seq<Option<KvRoom>> {
    Seq::new(count, |i: int| None)
}

fn empty_rooms(count: usize) -> (rooms: Vec<Option<KvRoom>>)
    ensures
        rooms@ == no_rooms(count as nat),
{
    let mut rooms: Vec<Option<KvRoom>> = Vec::new();
    for i in 0..count
        invariant
            rooms@ == no_rooms(i as nat),
    {
        rooms.push(None);
        assert(rooms@ =~= no_rooms((i + 1) as nat));
    }
    rooms
}

impl<K: Kernel> DecoderModel<K> {
    /// Why the decoder cannot live on a device.
    pub fn resident_full_decode_unsupported_reason(&self, facts: &DeviceFacts) -> (obstacle: Option<DecoderObstacle>)
        ensures
            obstacle == decoder_obstacle(*self, *facts),
    {
        if !facts.present {
            return Some(DecoderObstacle::NoDevice);
        }
        if self.config.head_dim.is_none() {
            return Some(DecoderObstacle::NoHeadSize);
        }
        let q_heads: usize = self.config.num_attention_heads;
        let kv_heads: usize = self.config.num_key_value_heads;
        if q_heads == 0 || kv_heads == 0 || q_heads % kv_heads != 0 {
            return Some(DecoderObstacle::Heads);
        }
        if self.lm_head.bias.is_some() {
            return Some(DecoderObstacle::OutputBias);
        }
        if self.config.rope_theta.is_none() {
            return Some(DecoderObstacle::NoRope);
        }
        if self.config.rope_style != RopeStyle::Halves {
            return Some(DecoderObstacle::RopePairs);
        }
        if self.config.rope_position_scale.is_some() {
            return Some(DecoderObstacle::RopeScale);
        }
        if !facts.linear_layers && self.has_linear_layer() {
            return Some(DecoderObstacle::LinearLayersOff);
        }
        self.first_layer_obstacle()
    }

    fn first_layer_obstacle(&self) -> (obstacle: Option<DecoderObstacle>)
        ensures
            obstacle == first_obstacle(self.layers@, 0),
    {
        let n: usize = self.layers.len();
        let mut i: usize = 0;
        while i < n
            invariant
                i <= n,
                n == self.layers@.len(),
                first_obstacle(self.layers@, 0) == first_obstacle(self.layers@, i as int),
            decreases n - i,
        {
            if !self.layers[i].supports_resident_full() {
                let obstacle: LayerObstacle = match resident_full_layer_unsupported_reason(&self.layers[i]) {
                    Some(obstacle) => obstacle,
                    None => LayerObstacle::Unknown,
                };
                return Some(DecoderObstacle::Layer(i, obstacle));
            }
            i = i + 1;
        }
        None
    }

    /// Whether some layer is a linear one.
    pub fn has_linear_layer(&self) -> (yes: bool)
        ensures
            yes == exists|i: int| 0 <= i < self.layers@.len() && !(#[trigger] self.config.full_attention_at(i)),
    {
        let n: usize = self.layers.len();
        for i in 0..n
            invariant
                n == self.layers@.len(),
                forall|j: int| 0 <= j < i ==> #[trigger] self.config.full_attention_at(j),
        {
            if !self.config.is_full_attention_layer(i) {
                return true;
            }
        }
        false
    }

    /// Whether the decoder can live on a device.
    pub fn supports_resident_full_decode(&self, facts: &DeviceFacts) -> (can: bool)
        ensures
            can == (decoder_obstacle(*self, *facts) is None),
    {
        self.resident_full_decode_unsupported_reason(facts).is_none()
    }

    fn is_seedable(&self, head_dim: usize, cache: &CausalDecoderCache<K::Cell>, layer: usize) -> (yes: bool)
        requires
            layer < cache.layers@.len(),
        ensures
            yes == seedable(*self, head_dim, cache@, layer as int),
    {
        assert(cache@.layers[layer as int] == cache.layers@[layer as int]@);
        let keys: u128 = cache.layers[layer].keys.len() as u128;
        let values: u128 = cache.layers[layer].values.len() as u128;
        let position: u128 = cache.position as u128;
        let heads: u128 = self.config.num_key_value_heads as u128;
        let size: u128 = head_dim as u128;
        assert(0 <= heads * size <= u64::MAX * u64::MAX) by (nonlinear_arith)
            requires
                heads <= u64::MAX,
                size <= u64::MAX,
        ;
        let dim: u128 = heads * size;
        let ghost owed = position * dim;
        match position.checked_mul(dim) {
            Some(cells) => keys == cells && values == cells,
            None => false,
        }
    }

    /// Makes room on a device for the keys and values of the full layers that are complete;
    /// the others stay where they are. Refused where the positions do not fit the machine.
    pub fn setup_resident_decode(&self, cache: CausalDecoderCache<K::Cell>, max_new_tokens: usize, sampled: bool, device: bool) -> (out: Result<
        ResidentCache<K::Cell>,
        InferError,
    >)
        ensures
            out is Err <==> device && has_heads(*self) && cache.position + max_new_tokens > usize::MAX,
            match out {
                Ok(made) => {
                    &&& made.cache == cache
                    &&& made.arena is None
                    &&& made.rooms@ == if device && has_heads(*self) && cache.position + max_new_tokens > 0 {
                        rooms_due(
                            *self,
                            cache@,
                            (KvRoom { capacity: (cache.position + max_new_tokens) as usize, len: cache.position, sampled }),
                        )
                    } else {
                        no_rooms(cache@.layers.len())
                    }
                },
                Err(error) => error is Dimension,
            },
    {
        let count: usize = cache.layers.len();
        if !device {
            return Ok(ResidentCache { cache, rooms: empty_rooms(count), arena: None });
        }
        let head_dim: usize = match self.config.head_dim {
            Some(head_dim) => head_dim,
            None => {
                return Ok(ResidentCache { cache, rooms: empty_rooms(count), arena: None });
            },
        };
        let q_heads: usize = self.config.num_attention_heads;
        let kv_heads: usize = self.config.num_key_value_heads;
        if q_heads == 0 || kv_heads == 0 || head_dim == 0 || q_heads % kv_heads != 0 {
            return Ok(ResidentCache { cache, rooms: empty_rooms(count), arena: None });
        }
        let capacity: usize = match cache.position.checked_add(max_new_tokens) {
            Some(capacity) => capacity,
            None => {
                return Err(InferError::Dimension("more positions than can be held"));
            },
        };
        if capacity == 0 {
            return Ok(ResidentCache { cache, rooms: empty_rooms(count), arena: None });
        }
        let room: KvRoom = KvRoom { capacity, len: cache.position, sampled };
        let mut rooms: Vec<Option<KvRoom>> = Vec::new();
        for i in 0..count
            invariant
                count == cache.layers@.len(),
                self.config.head_dim == Some(head_dim),
                rooms@.len() == i,
                forall|j: int| 0 <= j < i ==> #[trigger] rooms@[j] == rooms_due(*self, cache@, room)[j],
        {
            if self.config.is_full_attention_layer(i) && self.is_seedable(head_dim, &cache, i) {
                rooms.push(Some(room));
            } else {
                rooms.push(None);
            }
        }
        assert(rooms@ =~= rooms_due(*self, cache@, room));
        Ok(ResidentCache { cache, rooms, arena: None })
    }
}

/// Every room has room for one more position.
pub open spec fn has_room(rooms: Seq<Option<KvRoom>>) -> bool {
    forall|i: int| 0 <= i < rooms.len() ==> ((#[trigger] rooms[i]) matches Some(room) ==> room.len < room.capacity)
}

/// Every room has room for so many more positions.
pub open spec fn has_room_for(rooms: Seq<Option<KvRoom>>, more: int) -> bool {
    forall|i: int| 0 <= i < rooms.len() ==> ((#[trigger] rooms[i]) matches Some(room) ==> room.len + more <= room.capacity)
}

/// Rooms with so many more positions.
pub open spec fn filled(rooms: Seq<Option<KvRoom>>, more: int) -> Seq<Option<KvRoom>> {
    Seq::new(
        rooms.len(),
        |i: int|
            match rooms[i] {
                Some(room) => Some(KvRoom { len: (room.len + more) as usize, ..room }),
                None => None,
            },
    )
}

impl<C: Copy> ResidentCache<C> {
    /// A copy, with nothing of it on a device.
    pub fn duplicate(&self) -> (copy: ResidentCache<C>)
        ensures
            copy.cache@ == self.cache@,
            copy.arena is None,
            copy.rooms@ == no_rooms(self.rooms@.len()),
    {
        ResidentCache { cache: self.cache.duplicate(), rooms: empty_rooms(self.rooms.len()), arena: None }
    }

    pub fn can_grow(&self) -> (yes: bool)
        ensures
            yes == has_room(self.rooms@),
    {
        let n: usize = self.rooms.len();
        for i in 0..n
            invariant
                n == self.rooms@.len(),
                forall|j: int| 0 <= j < i ==> ((#[trigger] self.rooms@[j]) matches Some(room) ==> room.len < room.capacity),
        {
            if let Some(room) = self.rooms[i] {
                if room.len >= room.capacity {
                    return false;
                }
            }
        }
        true
    }

    /// Whether every room has place for more positions.
    pub fn can_grow_by(&self, more: usize) -> (yes: bool)
        ensures
            yes == has_room_for(self.rooms@, more as int),
    {
        for i in 0..self.rooms.len()
            invariant
                forall|j: int| 0 <= j < i ==> ((#[trigger] self.rooms@[j]) matches Some(room) ==> room.len + more <= room.capacity),
        {
            if let Some(room) = self.rooms[i] {
                if room.len > room.capacity || room.capacity - room.len < more {
                    return false;
                }
            }
        }
        true
    }

    pub fn grow(&mut self)
        requires
            has_room(old(self).rooms@),
        ensures
            final(self).cache == old(self).cache,
            final(self).arena == old(self).arena,
            final(self).rooms@ == filled(old(self).rooms@, 1),
    {
        self.grow_by(1);
    }

    pub fn grow_by(&mut self, more: usize)
        requires
            has_room_for(old(self).rooms@, more as int),
        ensures
            final(self).cache == old(self).cache,
            final(self).arena == old(self).arena,
            final(self).rooms@ == filled(old(self).rooms@, more as int),
    {
        let n: usize = self.rooms.len();
        let ghost start = self.rooms@;
        for i in 0..n
            invariant
                n == self.rooms@.len(),
                n == start.len(),
                has_room_for(start, more as int),
                self.cache == old(self).cache,
                self.arena == old(self).arena,
                forall|j: int| 0 <= j < i ==> #[trigger] self.rooms@[j] == filled(start, more as int)[j],
                forall|j: int| i <= j < n ==> #[trigger] self.rooms@[j] == start[j],
        {
            if let Some(room) = self.rooms[i] {
                assert(start[i as int] == Some(room));
                let grown: KvRoom = KvRoom { capacity: room.capacity, len: room.len + more, sampled: room.sampled };
                self.rooms.set(i, Some(grown));
            }
        }
        assert(self.rooms@ =~= filled(start, more as int));
    }

    /// Takes a token through the decoder. Refused where a room is full.
    pub fn next_final_state_cached<K: Kernel<Cell = C>>(&mut self, model: &DecoderModel<K>, token: usize) -> (out: Result<Tensor<C>, InferError>)
        requires
            model.wf(),
            old(self).cache@.wf(),
        ensures
            final(self).cache@.wf(),
            final(self).arena == old(self).arena,
            !has_room(old(self).rooms@) ==> (out matches Err(error) && error is Dimension) && *final(self) == *old(self),
            has_room(old(self).rooms@) ==> (out matches Err(error) ==> error.is_misfit(model.complete())),
            out is Ok ==> final(self).rooms@ == filled(old(self).rooms@, 1),
            out is Err ==> final(self).rooms == old(self).rooms,
            out matches Ok(state) ==> state.is_matrix() && state.shape@[0] == 1 && state.cols() == model.hidden(),
            functional(model.kernel) && has_room(old(self).rooms@) ==> match out {
                Ok(state) => step(*model, old(self).cache@, token) == Some((final(self).cache@, state.rows()[0])),
                Err(_) => step(*model, old(self).cache@, token) is None,
            },
    {
        if !self.can_grow() {
            return Err(InferError::Dimension("no room for another position"));
        }
        let state: Tensor<C> = model.next_final_state_cached(&mut self.cache, token)?;
        self.grow();
        Ok(state)
    }
}

/// How a layer stands on a device, and whether its maps are joined; nothing where it
/// cannot stand there.
pub open spec fn layer_plan<K: Kernel>(m: DecoderModel<K>, facts: DeviceFacts, i: int) -> Option<(ResidentLayerKind, bool)> {
    let layer = m.layers@[i];
    let joined = facts.joins_at(i);
    if layer.post_attention_norm is None {
        None
    } else {
        match layer.attention {
            AttentionBlock::Full(attention) => if !m.config.full_attention_at(i) || attention.q_norm is None || attention.k_norm is None
                || attention.v_proj is None {
                None
            } else {
                match layer.mlp {
                    Some(FeedForward::Moe(moe)) => if shares_expert(moe) {
                        Some((ResidentLayerKind::FullMoe, joined))
                    } else if routes_only(moe) && joined {
                        Some((ResidentLayerKind::FullRouted, true))
                    } else {
                        None
                    },
                    Some(FeedForward::Dense(_)) => Some((ResidentLayerKind::FullDense, joined)),
                    None => Some((ResidentLayerKind::Other, false)),
                }
            },
            AttentionBlock::Linear(_) => if m.config.full_attention_at(i) {
                None
            } else {
                match layer.mlp {
                    Some(FeedForward::Moe(moe)) => if shares_expert(moe) {
                        Some((ResidentLayerKind::LinearMoe, false))
                    } else {
                        None
                    },
                    Some(FeedForward::Dense(_)) => Some((ResidentLayerKind::LinearDense, false)),
                    None => Some((ResidentLayerKind::Other, false)),
                }
            },
        }
    }
}

/// What a draft head takes on a device. A head whose feed-forward block is not a gated one
/// stays away.
pub open spec fn head_plan<C>(head: MtpHead<C>, facts: DeviceFacts, hidden: int, max: usize, room: KvRoom) -> Result<Option<HeadArena>, Fault> {
    if !(head.layer.mlp is Dense) {
        Ok(None)
    } else if head.layer.attention.q_norm is None || head.layer.attention.k_norm is None || head.layer.attention.v_proj is None {
        Err(Fault::Config)
    } else if VERIFY_ROWS * hidden > usize::MAX {
        Err(Fault::Dimension)
    } else {
        Ok(
            Some(
                HeadArena {
                    room: KvRoom { len: 0, ..room },
                    joined: facts.head_joins,
                    drafts: if max == 0 {
                        1
                    } else {
                        max
                    },
                    verify_cells: (VERIFY_ROWS * hidden) as usize,
                    pair_cells: (2 * hidden) as usize,
                    current_is_a: true,
                    pending_start: 0,
                    pending_count: 0,
                },
            ),
        )
    }
}

/// Everything that a decoder needs to stand on a device is there.
pub open spec fn all_ready<K: Kernel>(m: DecoderModel<K>, cache: CacheView<K::Cell>) -> bool {
    forall|i: int|
        0 <= i < cache.layers.len() ==> if #[trigger] m.config.full_attention_at(i) {
            seedable(m, m.config.head_dim->0, cache, i)
        } else {
            cache.layers[i].recurrent.len() > 0
        }
}

/// What a decoder takes on a device, for `max` more positions; nothing where it cannot
/// stand there.
pub open spec fn arena_plan<K: Kernel>(m: DecoderModel<K>, facts: DeviceFacts, cache: CacheView<K::Cell>, max: usize, slot: u64, sampled: bool) -> Result<
    Option<ArenaView>,
    Fault,
> {
    if !facts.present || !has_heads(m) || m.hidden() == 0 {
        Ok(None)
    } else if cache.position + max > usize::MAX {
        Err(Fault::Dimension)
    } else if cache.position + max == 0 || !all_ready(m, cache) || exists|i: int|
        0 <= i < m.layers@.len() && (#[trigger] layer_plan(m, facts, i)) is None {
        Ok(None)
    } else {
        let room = KvRoom { capacity: (cache.position + max) as usize, len: cache.position as usize, sampled };
        let head = match m.mtp {
            Some(head) => head_plan(head, facts, m.hidden(), max, room),
            None => Ok(None),
        };
        match head {
            Ok(head) => Ok(
                Some(
                    ArenaView {
                        kinds: Seq::new(m.layers@.len(), |i: int| (layer_plan(m, facts, i)->0).0),
                        joined: Seq::new(m.layers@.len(), |i: int| (layer_plan(m, facts, i)->0).1),
                        hidden: m.hidden() as usize,
                        ring: RESIDENT_PIPELINE_WINDOW,
                        pipeline_ring: if m.config.parallel_moe {
                            RESIDENT_PIPELINE_WINDOW
                        } else {
                            0
                        },
                        namespace: slot,
                        timed: facts.timed,
                        head,
                    },
                ),
            ),
            Err(fault) => Err(fault),
        }
    }
}

/// Rooms for all full layers.
pub open spec fn full_rooms<K: Kernel>(m: DecoderModel<K>, count: nat, room: KvRoom) -> Seq<Option<KvRoom>> {
    Seq::new(
        count,
        |i: int|
            if m.config.full_attention_at(i) {
                Some(room)
            } else {
                None
            },
    )
}

impl<K: Kernel> DecoderModel<K> {
    fn plan_layer(&self, facts: &DeviceFacts, i: usize) -> (plan: Option<(ResidentLayerKind, bool)>)
        requires
            i < self.layers@.len(),
        ensures
            plan == layer_plan(*self, *facts, i as int),
    {
        let layer: &DecoderLayer<K::Cell> = &self.layers[i];
        let full: bool = self.config.is_full_attention_layer(i);
        let joined: bool = facts.join_layer(i);
        if layer.post_attention_norm.is_none() {
            return None;
        }
        match &layer.attention {
            AttentionBlock::Full(attention) => {
                if !full || attention.q_norm.is_none() || attention.k_norm.is_none() || attention.v_proj.is_none() {
                    return None;
                }
                match &layer.mlp {
                    Some(FeedForward::Moe(moe)) => {
                        if moe.shared_expert.is_some() && moe.shared_expert_gate.is_some() {
                            Some((ResidentLayerKind::FullMoe, joined))
                        } else if moe.shared_expert.is_none() && moe.shared_expert_gate.is_none() && joined {
                            Some((ResidentLayerKind::FullRouted, true))
                        } else {
                            None
                        }
                    },
                    Some(FeedForward::Dense(_)) => Some((ResidentLayerKind::FullDense, joined)),
                    None => Some((ResidentLayerKind::Other, false)),
                }
            },
            AttentionBlock::Linear(_) => {
                if full {
                    return None;
                }
                match &layer.mlp {
                    Some(FeedForward::Moe(moe)) => {
                        if moe.shared_expert.is_some() && moe.shared_expert_gate.is_some() {
                            Some((ResidentLayerKind::LinearMoe, false))
                        } else {
                            None
                        }
                    },
                    Some(FeedForward::Dense(_)) => Some((ResidentLayerKind::LinearDense, false)),
                    None => Some((ResidentLayerKind::Other, false)),
                }
            },
        }
    }

    fn is_all_ready(&self, head_dim: usize, cache: &CausalDecoderCache<K::Cell>) -> (yes: bool)
        requires
            self.config.head_dim == Some(head_dim),
        ensures
            yes == all_ready(*self, cache@),
    {
        let n: usize = cache.layers.len();
        for i in 0..n
            invariant
                n == cache.layers@.len(),
                self.config.head_dim == Some(head_dim),
                forall|j: int|
                    0 <= j < i ==> if #[trigger] self.config.full_attention_at(j) {
                        seedable(*self, head_dim, cache@, j)
                    } else {
                        cache@.layers[j].recurrent.len() > 0
                    },
        {
            assert(cache@.layers[i as int] == cache.layers@[i as int]@);
            let ready: bool = if self.config.is_full_attention_layer(i) {
                self.is_seedable(head_dim, cache, i)
            } else {
                cache.layers[i].recurrent.len() > 0
            };
            if !ready {
                return false;
            }
        }
        true
    }

    fn plan_layers(&self, facts: &DeviceFacts) -> (plan: Option<(Vec<ResidentLayerKind>, Vec<bool>)>)
        ensures
            match plan {
                Some((kinds, joined)) => {
                    &&& forall|i: int| 0 <= i < self.layers@.len() ==> (#[trigger] layer_plan(*self, *facts, i)) is Some
                    &&& kinds@ == Seq::new(self.layers@.len(), |i: int| (layer_plan(*self, *facts, i)->0).0)
                    &&& joined@ == Seq::new(self.layers@.len(), |i: int| (layer_plan(*self, *facts, i)->0).1)
                },
                None => exists|i: int| 0 <= i < self.layers@.len() && (#[trigger] layer_plan(*self, *facts, i)) is None,
            },
    {
        let mut kinds: Vec<ResidentLayerKind> = Vec::new();
        let mut joined: Vec<bool> = Vec::new();
        let n: usize = self.layers.len();
        for i in 0..n
            invariant
                n == self.layers@.len(),
                kinds@.len() == i,
                joined@.len() == i,
                forall|j: int| 0 <= j < i ==> (#[trigger] layer_plan(*self, *facts, j)) is Some,
                forall|j: int| 0 <= j < i ==> #[trigger] kinds@[j] == (layer_plan(*self, *facts, j)->0).0,
                forall|j: int| 0 <= j < i ==> #[trigger] joined@[j] == (layer_plan(*self, *facts, j)->0).1,
        {
            match self.plan_layer(facts, i) {
                Some((kind, join)) => {
                    kinds.push(kind);
                    joined.push(join);
                },
                None => {
                    assert(layer_plan(*self, *facts, i as int) is None);
                    return None;
                },
            }
        }
        assert(kinds@ =~= Seq::new(self.layers@.len(), |i: int| (layer_plan(*self, *facts, i)->0).0));
        assert(joined@ =~= Seq::new(self.layers@.len(), |i: int| (layer_plan(*self, *facts, i)->0).1));
        Some((kinds, joined))
    }

    fn plan_head(&self, head: &MtpHead<K::Cell>, facts: &DeviceFacts, hidden: usize, max_new_tokens: usize, room: KvRoom) -> (out: Result<
        Option<HeadArena>,
        InferError,
    >)
        ensures
            match out {
                Ok(plan) => head_plan(*head, *facts, hidden as int, max_new_tokens, room) == Result::<Option<HeadArena>, Fault>::Ok(plan),
                Err(error) => head_plan(*head, *facts, hidden as int, max_new_tokens, room) == Result::<Option<HeadArena>, Fault>::Err(
                    error.fault(),
                ),
            },
    {
        match &head.layer.mlp {
            FeedForward::Dense(_) => {},
            FeedForward::Moe(_) => {
                return Ok(None);
            },
        }
        if head.layer.attention.q_norm.is_none() {
            return Err(InferError::Config("draft head without a query norm"));
        }
        if head.layer.attention.k_norm.is_none() {
            return Err(InferError::Config("draft head without a key norm"));
        }
        if head.layer.attention.v_proj.is_none() {
            return Err(InferError::Config("draft head without a value map"));
        }
        let verify_cells: usize = match hidden.checked_mul(VERIFY_ROWS) {
            Some(cells) => cells,
            None => {
                return Err(InferError::Dimension("states to check too large"));
            },
        };
        let drafts: usize = if max_new_tokens == 0 {
            1
        } else {
            max_new_tokens
        };
        Ok(
            Some(
                HeadArena {
                    room: KvRoom { capacity: room.capacity, len: 0, sampled: room.sampled },
                    joined: facts.head_joins,
                    drafts,
                    verify_cells,
                    pair_cells: 2 * hidden,
                    current_is_a: true,
                    pending_start: 0,
                    pending_count: 0,
                },
            ),
        )
    }

    /// Makes room on a device for the whole decoder, for one of several streams. Nothing is
    /// changed where it cannot stand there, which the answer says. Refused where the
    /// positions do not fit the machine, or where the draft head is incomplete.
    pub fn setup_resident_full_decode_with_slot(&self, facts: &DeviceFacts, cache: &mut ResidentCache<K::Cell>, max_new_tokens: usize, slot: u64, sampled: bool) -> (out: Result<
        bool,
        InferError,
    >)
        ensures
            final(cache).cache == old(cache).cache,
            ({
                let plan = arena_plan(*self, *facts, old(cache).cache@, max_new_tokens, slot, sampled);
                match out {
                    Ok(true) => {
                        &&& plan matches Ok(Some(arena)) && final(cache).arena is Some && (final(cache).arena->0)@ == arena
                        &&& final(cache).rooms@ == full_rooms(
                            *self,
                            old(cache).cache@.layers.len(),
                            (KvRoom {
                                capacity: (old(cache).cache.position + max_new_tokens) as usize,
                                len: old(cache).cache.position,
                                sampled,
                            }),
                        )
                    },
                    Ok(false) => plan == Result::<Option<ArenaView>, Fault>::Ok(None) && *final(cache) == *old(cache),
                    Err(error) => plan == Result::<Option<ArenaView>, Fault>::Err(error.fault()) && *final(cache) == *old(cache),
                }
            }),
    {
        if !facts.present {
            return Ok(false);
        }
        let head_dim: usize = match self.config.head_dim {
            Some(head_dim) => head_dim,
            None => {
                return Ok(false);
            },
        };
        let q_heads: usize = self.config.num_attention_heads;
        let kv_heads: usize = self.config.num_key_value_heads;
        if q_heads == 0 || kv_heads == 0 || head_dim == 0 || q_heads % kv_heads != 0 {
            return Ok(false);
        }
        let hidden: usize = self.final_norm.data.len();
        if hidden == 0 {
            return Ok(false);
        }
        let position: usize = cache.cache.position;
        let capacity: usize = match position.checked_add(max_new_tokens) {
            Some(capacity) => capacity,
            None => {
                return Err(InferError::Dimension("more positions than can be held"));
            },
        };
        if capacity == 0 || !self.is_all_ready(head_dim, &cache.cache) {
            return Ok(false);
        }
        let (kinds, joined) = match self.plan_layers(facts) {
            Some(plan) => plan,
            None => {
                return Ok(false);
            },
        };
        let room: KvRoom = KvRoom { capacity, len: position, sampled };
        let head: Option<HeadArena> = match &self.mtp {
            Some(head) => self.plan_head(head, facts, hidden, max_new_tokens, room)?,
            None => None,
        };
        let n: usize = cache.cache.layers.len();
        let mut rooms: Vec<Option<KvRoom>> = Vec::new();
        for i in 0..n
            invariant
                n == cache.cache.layers@.len(),
                rooms@.len() == i,
                forall|j: int| 0 <= j < i ==> #[trigger] rooms@[j] == full_rooms(*self, n as nat, room)[j],
        {
            if self.config.is_full_attention_layer(i) {
                rooms.push(Some(room));
            } else {
                rooms.push(None);
            }
        }
        assert(rooms@ =~= full_rooms(*self, n as nat, room));
        cache.rooms = rooms;
        let pipeline_ring: usize = if self.config.parallel_moe {
            RESIDENT_PIPELINE_WINDOW
        } else {
            0
        };
        cache.arena =
        Some(
            ResidentArena {
                kinds,
                joined,
                hidden,
                ring: RESIDENT_PIPELINE_WINDOW,
                pipeline_ring,
                namespace: slot,
                timed: facts.timed,
                head,
            },
        );
        Ok(true)
    }

    /// Makes room on a device for the whole decoder.
    pub fn setup_resident_full_decode(&self, facts: &DeviceFacts, cache: &mut ResidentCache<K::Cell>, max_new_tokens: usize, sampled: bool) -> (out: Result<
        bool,
        InferError,
    >)
        ensures
            final(cache).cache == old(cache).cache,
            ({
                let plan = arena_plan(*self, *facts, old(cache).cache@, max_new_tokens, 0, sampled);
                match out {
                    Ok(true) => plan matches Ok(Some(arena)) && final(cache).arena is Some && (final(cache).arena->0)@ == arena
                        && final(cache).rooms@ == full_rooms(
                        *self,
                        old(cache).cache@.layers.len(),
                        (KvRoom {
                            capacity: (old(cache).cache.position + max_new_tokens) as usize,
                            len: old(cache).cache.position,
                            sampled,
                        }),
                    ),
                    Ok(false) => plan == Result::<Option<ArenaView>, Fault>::Ok(None) && *final(cache) == *old(cache),
                    Err(error) => plan == Result::<Option<ArenaView>, Fault>::Err(error.fault()) && *final(cache) == *old(cache),
                }
            }),
    {
        self.setup_resident_full_decode_with_slot(facts, cache, max_new_tokens, 0, sampled)
    }
}

/// A decoder in whose way nothing stands, and whose layers are of the kinds that its
/// configuration says, can be laid out on the device that was asked, layer by layer; its
/// routed experts need their maps joined.
pub proof fn law_supported_can_be_laid_out<K: Kernel>(m: DecoderModel<K>, facts: DeviceFacts, i: int)
    requires
        decoder_obstacle(m, facts) is None,
        0 <= i < m.layers@.len(),
        m.config.full_attention_at(i) == (m.layers@[i].attention is Full),
        m.layers@[i].mlp matches Some(FeedForward::Moe(moe)) ==> shares_expert(moe) || (m.layers@[i].attention is Full && facts.joins_at(i)),
    ensures
        layer_plan(m, facts, i) is Some,
        (layer_plan(m, facts, i)->0).0 != ResidentLayerKind::Other,
{
    lemma_no_obstacle(m.layers@, 0, i);
}

proof fn lemma_no_obstacle<C>(layers: Seq<DecoderLayer<C>>, l: int, i: int)
    requires
        0 <= l <= i < layers.len(),
        first_obstacle(layers, l) is None,
    ensures
        layer_can_live(layers[i]),
    decreases i - l,
{
    if l < i {
        lemma_no_obstacle(layers, l + 1, i);
    }
}

} // verus!
