//! A prompt that a device takes through all layers at once.

use vstd::prelude::*;
use crate::attention::FullAttention;
use crate::config::RopeStyle;
use crate::error::{Fault, InferError};
use crate::kernel::{functional, Kernel};
use crate::kv::{LayerKvCache, LayerView};
use crate::layer::{norm_of, norm_row, AttentionBlock, DecoderLayer};
use crate::linear::FeedForward;
use crate::model::{CacheView, CausalDecoderCache, DecoderModel};
use crate::prefill::Prefilled;
use crate::resident::{routes_only, shares_expert};
use crate::tensor::Tensor;

verus! {

/// Switches of a prompt on a device.
#[derive(Clone, Copy)]
pub struct PrefillFacts {
    /// There is a device, and prompts may go there.
    pub enabled: bool,
    /// Layers with a dense block may go there.
    pub dense: bool,
}

/// A full layer turns by its own base, by scaled positions, or sees a window only.
pub open spec fn has_override<C>(attention: FullAttention<C>) -> bool {
    attention.rope_theta is Some || attention.rope_position_scale is Some || attention.sliding_window is Some
}

/// A layer can take a prompt on a device.
pub open spec fn prompt_layer<K: Kernel>(m: DecoderModel<K>, facts: PrefillFacts, layer: DecoderLayer<K::Cell>) -> bool {
    &&& layer.post_attention_norm is Some
    &&& match layer.mlp {
        Some(FeedForward::Dense(_)) => facts.dense,
        Some(FeedForward::Moe(moe)) => shares_expert(moe) || routes_only(moe),
        None => false,
    }
    &&& match layer.attention {
        AttentionBlock::Full(attention) => attention.q_norm is Some && attention.k_norm is Some && attention.v_proj is Some && !has_override(attention),
        AttentionBlock::Linear(_) => m.config.linear_sizes() matches Some(sizes) && 2 * (sizes.num_key_heads * sizes.key_head_dim)
            + sizes.num_value_heads * sizes.value_head_dim <= usize::MAX,
    }
}

/// A prompt can go through the decoder on a device.
pub open spec fn prompt_on_device<K: Kernel>(m: DecoderModel<K>, facts: PrefillFacts) -> bool {
    &&& facts.enabled
    &&& m.config.rope_theta is Some
    &&& m.config.head_dim is Some
    &&& m.config.rope_style == RopeStyle::Halves
    &&& forall|i: int| 0 <= i < m.layers@.len() ==> #[trigger] prompt_layer(m, facts, m.layers@[i])
}

/// What a device hands back of a layer.
pub enum PrefillLayerState<C> {
    Full { key: Tensor<C>, value: Tensor<C> },
    Linear { state: Vec<C> },
}

/// What a layer has seen, from what a device handed back of it.
pub open spec fn handed_back<C>(state: PrefillLayerState<C>, dim: usize) -> Option<LayerView<C>> {
    match state {
        PrefillLayerState::Full { key, value } => if key.shape@.len() == 2 && value.shape@.len() == 2 && key.shape@[0] > 0 && key.shape@[0] == value.shape@[0]
            && key.shape@[1] == dim && value.shape@[1] == dim {
            Some(LayerView::empty().append(key.data@, value.data@, dim))
        } else {
            None
        },
        PrefillLayerState::Linear { state } => Some(LayerView { recurrent: state@, ..LayerView::empty() }),
    }
}

/// What the first layers have seen.
pub open spec fn all_handed_back<C>(states: Seq<PrefillLayerState<C>>, dim: usize, n: int) -> Option<Seq<LayerView<C>>>
    decreases n,
{
    if n <= 0 {
        Some(Seq::empty())
    } else {
        match all_handed_back(states, dim, n - 1) {
            Some(before) => match handed_back(states[n - 1], dim) {
                Some(view) => Some(before.push(view)),
                None => None,
            },
            None => None,
        }
    }
}

/// What a prompt left on a device: the cache and the state behind its last token, or why
/// it is refused.
pub open spec fn prompt_left<K: Kernel>(m: DecoderModel<K>, states: Seq<PrefillLayerState<K::Cell>>, last: Seq<K::Cell>, count: int) -> Result<
    (CacheView<K::Cell>, Seq<K::Cell>),
    Fault,
> {
    let dim = m.config.num_key_value_heads * (m.config.head_dim->0);
    if states.len() != m.layers@.len() || dim > usize::MAX || last.len() != m.hidden() {
        Err(Fault::Dimension)
    } else {
        match all_handed_back(states, dim as usize, states.len() as int) {
            Some(layers) => Ok((CacheView { layers, position: count }, norm_of(m.kernel, last, m.final_norm, m.config.rms_eps)->0)),
            None => Err(Fault::Dimension),
        }
    }
}

/// States whose tensors are in order.
pub open spec fn states_in_order<C>(states: Seq<PrefillLayerState<C>>) -> bool {
    forall|i: int|
        0 <= i < states.len() ==> match #[trigger] states[i] {
            PrefillLayerState::Full { key, value } => (key.shape@.len() == 2 ==> key.is_matrix()) && (value.shape@.len() == 2 ==> value.is_matrix()),
            PrefillLayerState::Linear { .. } => true,
        }
}

proof fn lemma_not_handed_back<C>(states: Seq<PrefillLayerState<C>>, dim: usize, fewer: int, more: int)
    requires
        0 <= fewer <= more,
        all_handed_back(states, dim, fewer) is None,
    ensures
        all_handed_back(states, dim, more) is None,
    decreases more,
{
    if fewer < more {
        lemma_not_handed_back(states, dim, fewer, more - 1);
    }
}

fn hand_back<C: Copy>(state: &PrefillLayerState<C>, dim: usize) -> (out: Result<LayerKvCache<C>, InferError>)
    requires
        match *state {
            PrefillLayerState::Full { key, value } => (key.shape@.len() == 2 ==> key.is_matrix()) && (value.shape@.len() == 2 ==> value.is_matrix()),
            PrefillLayerState::Linear { .. } => true,
        },
    ensures
        match out {
            Ok(cache) => handed_back(*state, dim) == Some(cache@),
            Err(error) => handed_back(*state, dim) is None && error is Dimension,
        },
{
    let mut cache: LayerKvCache<C> = LayerKvCache::new();
    match state {
        PrefillLayerState::Full { key, value } => {
            if key.shape.len() != 2 || value.shape.len() != 2 {
                return Err(InferError::Dimension("rows of keys and values expected"));
            }
            cache.append_batch(key, value, dim)?;
        },
        PrefillLayerState::Linear { state } => {
            cache.recurrent = crate::tensor::copy_cells(state);
            assert(cache@ =~= (LayerView { recurrent: state@, ..LayerView::empty() }));
        },
    }
    Ok(cache)
}

impl<K: Kernel> DecoderModel<K> {
    fn is_prompt_layer(&self, facts: PrefillFacts, i: usize) -> (yes: bool)
        requires
            i < self.layers@.len(),
        ensures
            yes == prompt_layer(*self, facts, self.layers@[i as int]),
    {
        let layer: &DecoderLayer<K::Cell> = &self.layers[i];
        if layer.post_attention_norm.is_none() {
            return false;
        }
        let block: bool = match &layer.mlp {
            Some(FeedForward::Dense(_)) => facts.dense,
            Some(FeedForward::Moe(moe)) => moe.shared_expert.is_some() == moe.shared_expert_gate.is_some(),
            None => false,
        };
        let attention: bool = match &layer.attention {
            AttentionBlock::Full(attention) => attention.q_norm.is_some() && attention.k_norm.is_some() && attention.v_proj.is_some()
                && attention.rope_theta.is_none() && attention.rope_position_scale.is_none() && attention.sliding_window.is_none(),
            AttentionBlock::Linear(_) => match self.config.linear_attention_config() {
                Ok(sizes) => crate::resident_decode::sizes_fit(&sizes),
                Err(_) => false,
            },
        };
        block && attention
    }

    /// Whether a prompt can go through the decoder on a device.
    pub fn can_prefill_resident(&self, facts: PrefillFacts) -> (yes: bool)
        ensures
            yes == prompt_on_device(*self, facts),
    {
        let style: bool = match self.config.rope_style {
            RopeStyle::Halves => true,
            _ => false,
        };
        if !facts.enabled || self.config.rope_theta.is_none() || self.config.head_dim.is_none() || !style {
            return false;
        }
        for i in 0..self.layers.len()
            invariant
                forall|j: int| 0 <= j < i ==> #[trigger] prompt_layer(*self, facts, self.layers@[j]),
        {
            if !self.is_prompt_layer(facts, i) {
                return false;
            }
        }
        true
    }

    /// What a prompt left, from what a device handed back of its layers and of its last
    /// row.
    pub fn prefill_cache_state_metal_resident(&self, layer_states: &Vec<PrefillLayerState<K::Cell>>, last: &Vec<K::Cell>, count: usize) -> (out: Result<Prefilled<K::Cell>, InferError>)
        requires
            self.config.head_dim is Some,
            states_in_order(layer_states@),
        ensures
            out matches Ok(made) ==> made.1.is_matrix() && made.1.shape@[0] == 1,
            functional(self.kernel) ==> match out {
                Ok(made) => prompt_left(*self, layer_states@, last@, count as int) == Result::<(CacheView<K::Cell>, Seq<K::Cell>), Fault>::Ok(
                    (made.0@, made.1.rows()[0]),
                ),
                Err(error) => prompt_left(*self, layer_states@, last@, count as int) == Result::<(CacheView<K::Cell>, Seq<K::Cell>), Fault>::Err(
                    error.fault(),
                ),
            },
    {
        let n: usize = layer_states.len();
        if n != self.layers.len() || last.len() != self.final_norm.data.len() {
            return Err(InferError::Dimension("layers or last row do not fit the decoder"));
        }
        let head_dim: usize = match self.config.head_dim {
            Some(dim) => dim,
            None => 0,
        };
        let dim: usize = match self.config.num_key_value_heads.checked_mul(head_dim) {
            Some(dim) => dim,
            None => {
                return Err(InferError::Dimension("rows of keys too long"));
            },
        };
        let mut layers: Vec<LayerKvCache<K::Cell>> = Vec::new();
        let ghost seen = Seq::<LayerView<K::Cell>>::empty();
        let mut i: usize = 0;
        while i < n
            invariant
                i <= n,
                n == layer_states@.len(),
                n == self.layers@.len(),
                last@.len() == self.hidden(),
                self.config.head_dim is Some,
                dim == self.config.num_key_value_heads * (self.config.head_dim->0),
                states_in_order(layer_states@),
                layers@.len() == i,
                seen.len() == i,
                all_handed_back(layer_states@, dim, i as int) == Some(seen),
                forall|j: int| 0 <= j < i ==> (#[trigger] layers@[j])@ == seen[j],
            decreases n - i,
        {
            match hand_back(&layer_states[i], dim) {
                Ok(cache) => {
                    proof {
                        seen = seen.push(cache@);
                    }
                    layers.push(cache);
                },
                Err(error) => {
                    proof {
                        lemma_not_handed_back(layer_states@, dim, i + 1, n as int);
                    }
                    return Err(error);
                },
            }
            i = i + 1;
        }
        let state: Vec<K::Cell> = match norm_row(&self.kernel, last, &self.final_norm, self.config.rms_eps) {
            Ok(state) => state,
            Err(_) => {
                return Err(InferError::Dimension("norm weight does not fit the row"));
            },
        };
        let cache: CausalDecoderCache<K::Cell> = CausalDecoderCache { layers, position: count };
        assert(cache@.layers =~= seen);
        Ok((cache, Tensor::row(state)))
    }
}

} // verus!
