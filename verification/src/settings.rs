//! Which setting counts where a layer has one of its own.

use vstd::prelude::*;
use crate::attention::{layout_of, rope_of, turns, AttentionLayout, FullAttention};
use crate::config::CausalDecoderConfig;
use crate::context::{cached_row, prepared_row, projected_row, qkv_row, split_len};
use crate::kernel::{constant_of, Constant, Kernel};
use crate::kv::LayerView;
use crate::tensor::Tensor;

verus! {

/// A layer that has a base of its own turns by that base, whatever the model's is; the
/// model's counts only where the layer has none. Without either, nothing is turned.
pub proof fn law_own_base_counts<K: Kernel>(k: K, config: CausalDecoderConfig<K::Cell>, attention: FullAttention<K::Cell>)
    ensures
        forall|base: K::Cell| attention.rope_theta == Some(base) ==> (#[trigger] rope_of(k, config, attention) matches Some(rope) && rope.theta == base),
        forall|base: K::Cell|
            attention.rope_theta is None && config.rope_theta == Some(base) ==> (#[trigger] rope_of(k, config, attention) matches Some(rope) && rope.theta
                == base),
        attention.rope_theta is None && config.rope_theta is None ==> rope_of(k, config, attention) is None,
{
}

/// A layer's own size and scale of the turns count before the model's.
pub proof fn law_own_turns_count<K: Kernel>(k: K, config: CausalDecoderConfig<K::Cell>, attention: FullAttention<K::Cell>)
    ensures
        rope_of(k, config, attention) matches Some(rope) ==> {
            &&& attention.rope_frequency_dim matches Some(dim) ==> rope.frequency_dim == dim
            &&& attention.rope_frequency_dim is None ==> (attention.head_dim matches Some(dim) ==> rope.frequency_dim == dim)
            &&& attention.rope_frequency_dim is None && attention.head_dim is None ==> (config.head_dim matches Some(dim) ==> rope.frequency_dim == dim)
            &&& attention.rope_position_scale matches Some(scale) ==> rope.position_scale == scale
            &&& attention.rope_position_scale is None ==> rope.position_scale == constant_of(k, Constant::One)
        },
{
}

/// Two configurations, and the layers under them, that turn rows alike.
spec fn turn_alike<K: Kernel>(k: K, a: CausalDecoderConfig<K::Cell>, b: CausalDecoderConfig<K::Cell>, left: FullAttention<K::Cell>, right: FullAttention<K::Cell>) -> bool {
    &&& a == (CausalDecoderConfig { rope_theta: a.rope_theta, ..b })
    &&& left == (FullAttention { rope_theta: left.rope_theta, ..right })
    &&& rope_of(k, a, left) == rope_of(k, b, right)
    &&& turns(a, left) == turns(b, right)
}

#[verifier::spinoff_prover]
proof fn lemma_turn_alike<K: Kernel>(
    k: K,
    a: CausalDecoderConfig<K::Cell>,
    b: CausalDecoderConfig<K::Cell>,
    left: FullAttention<K::Cell>,
    right: FullAttention<K::Cell>,
    x: Seq<K::Cell>,
    position: int,
)
    requires
        turn_alike(k, a, b, left, right),
    ensures
        qkv_row(k, a, left, x, position) == qkv_row(k, b, right, x, position),
{
    assert(projected_row(k, a, left, x) == projected_row(k, b, right, x));
    assert(split_len(a, left.q_proj.out_dim as int) == split_len(b, right.q_proj.out_dim as int));
    assert forall|q_dim: int, k_dim: int, v_dim: int| #[trigger] layout_of(k, a, left, q_dim, k_dim, v_dim) == layout_of(k, b, right, q_dim, k_dim, v_dim) by {}
    assert forall|layout: AttentionLayout<K::Cell>, row: Seq<K::Cell>, heads: int, norm: Option<Tensor<K::Cell>>| #[trigger]
        prepared_row(k, a, left, layout, row, heads, norm, position) == prepared_row(k, b, right, layout, row, heads, norm, position) by {}
}

/// What a layer with a base of its own makes of a row does not depend on the model's base.
pub proof fn law_own_base_shields<K: Kernel>(
    k: K,
    config: CausalDecoderConfig<K::Cell>,
    other: CausalDecoderConfig<K::Cell>,
    attention: FullAttention<K::Cell>,
    view: LayerView<K::Cell>,
    x: Seq<K::Cell>,
    position: int,
)
    requires
        attention.rope_theta is Some,
        other == (CausalDecoderConfig { rope_theta: other.rope_theta, ..config }),
    ensures
        qkv_row(k, other, attention, x, position) == qkv_row(k, config, attention, x, position),
        cached_row(k, other, attention, view, x, position) == cached_row(k, config, attention, view, x, position),
{
    lemma_turn_alike(k, other, config, attention, attention, x, position);
}

/// What a layer without a base of its own makes of a row is what it would make with the
/// model's base as its own.
pub proof fn law_model_base_serves<K: Kernel>(
    k: K,
    config: CausalDecoderConfig<K::Cell>,
    attention: FullAttention<K::Cell>,
    owning: FullAttention<K::Cell>,
    x: Seq<K::Cell>,
    position: int,
)
    requires
        attention.rope_theta is None,
        owning == (FullAttention { rope_theta: config.rope_theta, ..attention }),
    ensures
        qkv_row(k, config, owning, x, position) == qkv_row(k, config, attention, x, position),
{
    lemma_turn_alike(k, config, config, owning, attention, x, position);
}

/// A layer's own heads, sizes and window count before the model's, and a window of nothing
/// is none. The scores are scaled by the model's number, or by the size of a head.
pub proof fn law_own_layout_counts<K: Kernel>(k: K, config: CausalDecoderConfig<K::Cell>, attention: FullAttention<K::Cell>, q_dim: int, k_dim: int, v_dim: int)
    requires
        0 <= q_dim <= usize::MAX,
    ensures
        layout_of(k, config, attention, q_dim, k_dim, v_dim) matches Some(layout) ==> {
            &&& layout.num_attention_heads == config.num_attention_heads
            &&& attention.num_key_value_heads matches Some(heads) ==> layout.num_key_value_heads == heads
            &&& attention.num_key_value_heads is None ==> layout.num_key_value_heads == config.num_key_value_heads
            &&& attention.head_dim matches Some(dim) ==> layout.head_dim == dim
            &&& attention.head_dim is None ==> (config.head_dim matches Some(dim) ==> layout.head_dim == dim)
            &&& attention.rope_dims matches Some(dims) ==> layout.rope_dims == dims
            &&& attention.rope_dims is None ==> (config.rope_dims matches Some(dims) ==> layout.rope_dims == dims)
            &&& attention.rope_dims is None && config.rope_dims is None ==> layout.rope_dims == layout.head_dim
            &&& config.query_pre_attn_scalar matches Some(scalar) ==> layout.attn_scalar == scalar
            &&& config.query_pre_attn_scalar is None ==> layout.attn_scalar == crate::kernel::count_of(k, layout.head_dim)
            &&& layout.sliding_window matches Some(window) ==> window > 0 && attention.sliding_window == Some(window)
            &&& layout.sliding_window is None ==> attention.sliding_window is None || attention.sliding_window == Some(0usize)
            &&& layout.num_attention_heads * layout.head_dim == q_dim
            &&& layout.num_key_value_heads * layout.head_dim == k_dim
            &&& k_dim == v_dim
        },
{
}

/// A layer with a shape of its own has the sizes of that shape, and the model's where the
/// shape leaves one open.
pub proof fn law_own_shape_counts<C: Copy>(config: CausalDecoderConfig<C>, layer: int, head_dim: usize)
    requires
        0 <= layer < config.layer_shapes@.len(),
    ensures
        ({
            let shape = config.layer_shapes@[layer];
            &&& shape.head_dim is Some ==> config.head_dim_at(layer) == shape.head_dim
            &&& shape.head_dim is None ==> config.head_dim_at(layer) == config.head_dim
            &&& shape.num_key_value_heads is Some ==> Some(config.kv_heads_at(layer)) == shape.num_key_value_heads
            &&& shape.num_key_value_heads is None ==> config.kv_heads_at(layer) == config.num_key_value_heads
            &&& shape.rope_dims is Some ==> Some(config.rope_dims_at(layer, head_dim)) == shape.rope_dims
            &&& shape.rope_dims is None && config.rope_dims is Some ==> Some(config.rope_dims_at(layer, head_dim)) == config.rope_dims
            &&& shape.rope_dims is None && config.rope_dims is None ==> config.rope_dims_at(layer, head_dim) == head_dim
            &&& shape.rope_frequency_dim is Some ==> Some(config.rope_frequency_dim_at(layer, head_dim)) == shape.rope_frequency_dim
            &&& config.keys_as_values_at(layer) == shape.keys_as_values
        }),
{
}

/// A layer beyond the shapes has the model's sizes.
pub proof fn law_no_shape<C: Copy>(config: CausalDecoderConfig<C>, layer: int, head_dim: usize)
    requires
        layer >= config.layer_shapes@.len(),
    ensures
        config.head_dim_at(layer) == config.head_dim,
        config.kv_heads_at(layer) == config.num_key_value_heads,
        config.rope_dims is Some ==> Some(config.rope_dims_at(layer, head_dim)) == config.rope_dims,
        config.rope_dims is None ==> config.rope_dims_at(layer, head_dim) == head_dim,
        config.rope_frequency_dim_at(layer, head_dim) == config.rope_dims_at(layer, head_dim),
        !config.keys_as_values_at(layer),
{
}

/// The sizes of the linear attention blocks are those that the configuration gives under
/// their names; one that is missing leaves none.
pub proof fn law_linear_sizes<C: Copy>(config: CausalDecoderConfig<C>)
    ensures
        match config.linear_sizes() {
            Some(sizes) => {
                &&& config.linear_num_key_heads == Some(sizes.num_key_heads)
                &&& config.linear_num_value_heads == Some(sizes.num_value_heads)
                &&& config.linear_key_head_dim == Some(sizes.key_head_dim)
                &&& config.linear_value_head_dim == Some(sizes.value_head_dim)
                &&& config.linear_conv_kernel_dim == Some(sizes.conv_kernel_dim)
            },
            None => {
                ||| config.linear_num_key_heads is None
                ||| config.linear_num_value_heads is None
                ||| config.linear_key_head_dim is None
                ||| config.linear_value_head_dim is None
                ||| config.linear_conv_kernel_dim is None
            },
        },
{
}

/// Every key head serves as many query heads, one behind the other.
pub proof fn law_key_heads_serve_groups<C: Copy>(layout: AttentionLayout<C>, group: int, key_head: int, i: int)
    requires
        0 < group,
        layout.num_attention_heads == layout.num_key_value_heads * group,
        0 <= key_head < layout.num_key_value_heads,
        0 <= i < group,
    ensures
        layout.kv_head(key_head * group + i) == key_head,
{
    let kv = layout.num_key_value_heads as int;
    assert((kv * group) / kv == group) by (nonlinear_arith)
        requires
            kv > 0,
    ;
    assert((key_head * group + i) / group == key_head) by (nonlinear_arith)
        requires
            0 <= i < group,
    ;
}

} // verus!
