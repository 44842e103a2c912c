//! Attention: the layout of the heads, their normalisation and rotation, and
//! the weighting of values by scores.

use vstd::prelude::*;
use crate::config::CausalDecoderConfig;
use crate::error::InferError;
use crate::kernel::{constant, constant_of, count, count_of, functional, Constant, Kernel};
use crate::rows::RopeParams;
use crate::tensor::Tensor;
use crate::weights::Linear;

verus! {

/// Weights and per-layer settings of a full attention block.
pub struct FullAttention<C> {
    pub q_proj: Linear<C>,
    pub k_proj: Linear<C>,
    /// Absent where the keys serve as values.
    pub v_proj: Option<Linear<C>>,
    pub o_proj: Linear<C>,
    pub q_norm: Option<Tensor<C>>,
    pub k_norm: Option<Tensor<C>>,
    pub num_key_value_heads: Option<usize>,
    pub head_dim: Option<usize>,
    pub rope_dims: Option<usize>,
    pub rope_frequency_dim: Option<usize>,
    pub value_norm: bool,
    pub rope_theta: Option<C>,
    pub rope_position_scale: Option<C>,
    pub sliding_window: Option<usize>,
}

impl<C: Copy> FullAttention<C> {
    pub open spec fn wf(&self) -> bool {
        &&& self.q_proj.wf()
        &&& self.k_proj.wf()
        &&& self.v_proj matches Some(v_proj) ==> v_proj.wf()
        &&& self.o_proj.wf()
    }
}

pub open spec fn or_else<T>(first: Option<T>, second: Option<T>) -> Option<T> {
    if first is Some {
        first
    } else {
        second
    }
}

fn choose_option<T: Copy>(first: Option<T>, second: Option<T>) -> (chosen: Option<T>)
    ensures
        chosen == or_else(first, second),
{
    match first {
        Some(value) => Some(value),
        None => second,
    }
}

/// The rotation of a layer: its own base, size and scale before the model's.
pub open spec fn rope_of<K: Kernel>(k: K, config: CausalDecoderConfig<K::Cell>, attention: FullAttention<K::Cell>) -> Option<RopeParams<K::Cell>> {
    match or_else(attention.rope_theta, config.rope_theta) {
        Some(theta) => Some(
            RopeParams {
                theta,
                frequency_dim: match or_else(
                    or_else(attention.rope_frequency_dim, attention.head_dim),
                    config.head_dim,
                ) {
                    Some(dim) => dim,
                    None => 1,
                },
                position_scale: match attention.rope_position_scale {
                    Some(scale) => scale,
                    None => constant_of(k, Constant::One),
                },
            },
        ),
        None => None,
    }
}

/// The layer turns its rows by their positions.
pub open spec fn turns<C>(config: CausalDecoderConfig<C>, attention: FullAttention<C>) -> bool {
    or_else(attention.rope_theta, config.rope_theta) is Some
}

/// The rotation of a layer, or `None` where the model has none.
pub fn rope_params<K: Kernel>(k: &K, config: &CausalDecoderConfig<K::Cell>, attention: &FullAttention<K::Cell>) -> (rope: Option<RopeParams<K::Cell>>)
    ensures
        rope is Some <==> turns(*config, *attention),
        functional(*k) ==> rope == rope_of(*k, *config, *attention),
{
    let theta: K::Cell = match choose_option(attention.rope_theta, config.rope_theta) {
        Some(theta) => theta,
        None => {
            return None;
        },
    };
    let own: Option<usize> = choose_option(attention.rope_frequency_dim, attention.head_dim);
    let frequency_dim: usize = match choose_option(own, config.head_dim) {
        Some(dim) => dim,
        None => 1,
    };
    let position_scale: K::Cell = match attention.rope_position_scale {
        Some(scale) => scale,
        None => constant(k, Constant::One),
    };
    Some(RopeParams { theta, frequency_dim, position_scale })
}

/// How queries, keys and values fall into heads.
#[derive(Clone, Copy, Debug)]
pub struct AttentionLayout<C> {
    pub num_attention_heads: usize,
    pub num_key_value_heads: usize,
    pub head_dim: usize,
    pub rope_dims: usize,
    /// The scores are divided by the root of this number.
    pub attn_scalar: C,
    /// Number of last positions that are seen; `None` for all of them.
    pub sliding_window: Option<usize>,
}

impl<C: Copy> AttentionLayout<C> {
    /// Every key head serves the same number of query heads, and the row lengths
    /// are within the machine's range.
    pub open spec fn grouped(&self) -> bool {
        &&& self.num_key_value_heads > 0
        &&& self.num_attention_heads % self.num_key_value_heads == 0
        &&& self.q_dim() <= usize::MAX
        &&& self.kv_dim() <= usize::MAX
    }

    /// The layout is grouped, and its rows are not empty.
    pub open spec fn shaped(&self) -> bool {
        &&& self.num_key_value_heads > 0
        &&& self.num_attention_heads > 0
        &&& self.num_attention_heads % self.num_key_value_heads == 0
        &&& self.head_dim > 0
        &&& self.q_dim() <= usize::MAX
    }

    /// The layout is shaped, and whole pairs of a head are turned.
    pub open spec fn wf(&self) -> bool {
        &&& self.shaped()
        &&& 0 < self.rope_dims <= self.head_dim
        &&& self.rope_dims % 2 == 0
    }

    pub open spec fn q_dim(&self) -> int {
        self.num_attention_heads * self.head_dim
    }

    pub open spec fn kv_dim(&self) -> int {
        self.num_key_value_heads * self.head_dim
    }

    /// The key head that a query head reads.
    pub open spec fn kv_head(&self, q_head: int) -> int {
        q_head / (self.num_attention_heads / self.num_key_value_heads) as int
    }

    /// First position that position `count - 1` sees.
    pub open spec fn window_start(&self, count: int) -> int {
        match self.sliding_window {
            Some(window) => if count > window {
                count - window
            } else {
                0
            },
            None => 0,
        }
    }

    pub proof fn lemma_kv(&self)
        requires
            self.shaped(),
        ensures
            0 < self.kv_dim() <= self.q_dim(),
            0 < self.q_dim(),
            self.grouped(),
            self.num_attention_heads / self.num_key_value_heads > 0,
            forall|h: int| 0 <= h < self.num_attention_heads ==> 0 <= #[trigger] self.kv_head(h) < self.num_key_value_heads,
    {
        let heads = self.num_attention_heads as int;
        let kv = self.num_key_value_heads as int;
        let group = heads / kv;
        vstd::arithmetic::div_mod::lemma_fundamental_div_mod(heads, kv);
        assert(heads == kv * group);
        assert(group > 0) by (nonlinear_arith)
            requires
                heads > 0,
                kv > 0,
                heads == kv * group,
        ;
        assert(kv <= heads) by (nonlinear_arith)
            requires
                kv > 0,
                group > 0,
                heads == kv * group,
        ;
        assert(0 < kv * self.head_dim <= heads * self.head_dim) by (nonlinear_arith)
            requires
                0 < kv <= heads,
                self.head_dim > 0,
        ;
        assert forall|h: int| 0 <= h < heads implies 0 <= #[trigger] self.kv_head(h) < kv by {
            vstd::arithmetic::div_mod::lemma_fundamental_div_mod(h, group);
            let q = h / group;
            let r = h % group;
            assert(0 <= r < group);
            assert(q >= 0) by (nonlinear_arith)
                requires
                    h >= 0,
                    h == group * q + r,
                    r < group,
                    group > 0,
            ;
            assert(q < kv) by (nonlinear_arith)
                requires
                    h < kv * group,
                    h == group * q + r,
                    0 <= r,
                    group > 0,
            ;
        }
    }

    pub fn group(&self) -> (group: usize)
        requires
            self.shaped(),
        ensures
            group == self.num_attention_heads / self.num_key_value_heads,
            group > 0,
    {
        proof {
            self.lemma_kv();
        }
        self.num_attention_heads / self.num_key_value_heads
    }

    /// Length of a key or value row.
    pub fn kv_size(&self) -> (size: usize)
        requires
            self.shaped(),
        ensures
            size == self.kv_dim(),
            size > 0,
    {
        proof {
            self.lemma_kv();
        }
        self.num_key_value_heads * self.head_dim
    }

    /// Length of a query row.
    pub fn q_size(&self) -> (size: usize)
        requires
            self.shaped(),
        ensures
            size == self.q_dim(),
            size > 0,
    {
        proof {
            self.lemma_kv();
        }
        self.num_attention_heads * self.head_dim
    }

    pub fn start_of_window(&self, seen: usize) -> (start: usize)
        ensures
            start == self.window_start(seen as int),
            start <= seen,
    {
        match self.sliding_window {
            Some(window) => if seen > window {
                seen - window
            } else {
                0
            },
            None => 0,
        }
    }
}

/// The layout that the model, a layer and the row lengths agree on.
pub open spec fn layout_of<K: Kernel>(
    k: K,
    config: CausalDecoderConfig<K::Cell>,
    attention: FullAttention<K::Cell>,
    q_dim: int,
    k_dim: int,
    v_dim: int,
) -> Option<AttentionLayout<K::Cell>> {
    let heads = config.num_attention_heads;
    let kv_heads = match attention.num_key_value_heads {
        Some(kv_heads) => kv_heads,
        None => config.num_key_value_heads,
    };
    let head_dim = match or_else(attention.head_dim, config.head_dim) {
        Some(dim) => dim as int,
        None => q_dim / heads as int,
    };
    let rope_dims = match or_else(attention.rope_dims, config.rope_dims) {
        Some(dims) => dims as int,
        None => head_dim,
    };
    if heads == 0 || kv_heads == 0 || heads % kv_heads != 0 {
        None
    } else if head_dim == 0 || q_dim != heads * head_dim || k_dim != kv_heads * head_dim || v_dim != kv_heads * head_dim {
        None
    } else if rope_dims == 0 || rope_dims > head_dim || rope_dims % 2 != 0 {
        None
    } else {
        Some(
            AttentionLayout {
                num_attention_heads: heads,
                num_key_value_heads: kv_heads,
                head_dim: head_dim as usize,
                rope_dims: rope_dims as usize,
                attn_scalar: match config.query_pre_attn_scalar {
                    Some(scalar) => scalar,
                    None => count_of(k, head_dim as usize),
                },
                sliding_window: match attention.sliding_window {
                    Some(window) => if window > 0 {
                        Some(window)
                    } else {
                        None
                    },
                    None => None,
                },
            },
        )
    }
}

/// The layout of a layer for rows of the given lengths. Refused where the heads
/// do not divide the rows, or the rotation does not fit a head.
pub fn attention_layout<K: Kernel>(
    k: &K,
    config: &CausalDecoderConfig<K::Cell>,
    attention: &FullAttention<K::Cell>,
    q_dim: usize,
    k_dim: usize,
    v_dim: usize,
) -> (layout: Result<AttentionLayout<K::Cell>, InferError>)
    ensures
        layout is Ok <==> layout_of(*k, *config, *attention, q_dim as int, k_dim as int, v_dim as int) is Some,
        layout matches Err(error) ==> error is Dimension,
        layout matches Ok(layout) ==> {
            let model = layout_of(*k, *config, *attention, q_dim as int, k_dim as int, v_dim as int)->0;
            &&& layout.wf()
            &&& layout.q_dim() == q_dim
            &&& layout.kv_dim() == k_dim
            &&& layout.kv_dim() == v_dim
            &&& layout.num_attention_heads == model.num_attention_heads
            &&& layout.num_key_value_heads == model.num_key_value_heads
            &&& layout.head_dim == model.head_dim
            &&& layout.rope_dims == model.rope_dims
            &&& layout.sliding_window == model.sliding_window
            &&& functional(*k) ==> layout == model
        },
{
    let heads: usize = config.num_attention_heads;
    let kv_heads: usize = match attention.num_key_value_heads {
        Some(kv_heads) => kv_heads,
        None => config.num_key_value_heads,
    };
    if heads == 0 || kv_heads == 0 {
        return Err(InferError::Dimension("attention without heads"));
    }
    if heads % kv_heads != 0 {
        return Err(InferError::Dimension("key heads do not divide the query heads"));
    }
    let head_dim: usize = match choose_option(attention.head_dim, config.head_dim) {
        Some(dim) => dim,
        None => q_dim / heads,
    };
    if head_dim == 0 {
        proof {
            assert(heads * 0 == 0) by (nonlinear_arith);
        }
        return Err(InferError::Dimension("head of size zero"));
    }
    let expected_q: usize = match heads.checked_mul(head_dim) {
        Some(size) => size,
        None => {
            return Err(InferError::Dimension("query rows leave the machine's range"));
        },
    };
    if q_dim != expected_q {
        return Err(InferError::Dimension("query rows do not fall into heads"));
    }
    proof {
        vstd::arithmetic::div_mod::lemma_fundamental_div_mod(heads as int, kv_heads as int);
        let group = heads as int / kv_heads as int;
        assert(kv_heads <= heads) by (nonlinear_arith)
            requires
                heads > 0,
                kv_heads > 0,
                heads == kv_heads * group,
        ;
        assert(kv_heads * head_dim <= heads * head_dim) by (nonlinear_arith)
            requires
                kv_heads <= heads,
                0 <= head_dim,
        ;
    }
    let expected_kv: usize = kv_heads * head_dim;
    if k_dim != expected_kv || v_dim != expected_kv {
        return Err(InferError::Dimension("key and value rows do not fall into heads"));
    }
    let rope_dims: usize = match choose_option(attention.rope_dims, config.rope_dims) {
        Some(dims) => dims,
        None => head_dim,
    };
    if rope_dims == 0 || rope_dims > head_dim || rope_dims % 2 != 0 {
        return Err(InferError::Dimension("rotated part does not fit a head"));
    }
    let attn_scalar: K::Cell = match config.query_pre_attn_scalar {
        Some(scalar) => scalar,
        None => count(k, head_dim),
    };
    let sliding_window: Option<usize> = match attention.sliding_window {
        Some(window) => if window > 0 {
            Some(window)
        } else {
            None
        },
        None => None,
    };
    Ok(
        AttentionLayout {
            num_attention_heads: heads,
            num_key_value_heads: kv_heads,
            head_dim,
            rope_dims,
            attn_scalar,
            sliding_window,
        },
    )
}

} // verus!
