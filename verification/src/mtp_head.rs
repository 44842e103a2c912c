//! A head that guesses the token behind the next.

use vstd::prelude::*;
use crate::attention::FullAttention;
use crate::context::{cached_row, full_attention_context_cached};
use crate::error::InferError;
use crate::kernel::{functional, Kernel};
use crate::kv::{LayerKvCache, LayerView};
use crate::layer::{add_row, added, norm_of, norm_row};
use crate::linear::{apply_feed_forward, apply_linear, feed_forward_row, linear_row, FeedForward};
use crate::model::{embed_row, DecoderModel};
use crate::tensor::{copy_cells, Tensor};
use crate::weights::Linear;

verus! {

/// The layer of a multi-token-prediction head.
pub struct MtpLayer<C> {
    pub input_norm: Tensor<C>,
    pub attention: FullAttention<C>,
    pub post_attention_norm: Tensor<C>,
    pub mlp: FeedForward<C>,
}

/// A multi-token-prediction head.
pub struct MtpHead<C> {
    pub pre_fc_norm_embedding: Tensor<C>,
    pub pre_fc_norm_hidden: Tensor<C>,
    pub fc: Linear<C>,
    pub layer: MtpLayer<C>,
    pub norm: Tensor<C>,
}

impl<C: Copy> MtpHead<C> {
    pub open spec fn wf(&self) -> bool {
        &&& self.fc.wf()
        &&& self.layer.attention.wf()
        &&& self.layer.mlp.wf()
    }
}

/// The input row of a head's layer: the normed embedding of a token and the normed
/// state before it, side by side, through the head's map.
pub open spec fn mtp_input<K: Kernel>(m: DecoderModel<K>, head: MtpHead<K::Cell>, state: Seq<K::Cell>, token: usize) -> Option<Seq<K::Cell>> {
    let eps = m.config.rms_eps;
    match embed_row(m, token) {
        Some(embedding) => match (
            norm_of(m.kernel, embedding, head.pre_fc_norm_embedding, eps),
            norm_of(m.kernel, state, head.pre_fc_norm_hidden, eps),
        ) {
            (Some(left), Some(right)) => linear_row(m.kernel, head.fc, left + right),
            _ => None,
        },
        None => None,
    }
}

/// What the feed-forward block of a head makes of the row behind its attention.
pub open spec fn mtp_output<K: Kernel>(m: DecoderModel<K>, head: MtpHead<K::Cell>, h: Seq<K::Cell>) -> Option<Seq<K::Cell>> {
    let eps = m.config.rms_eps;
    match norm_of(m.kernel, h, head.layer.post_attention_norm, eps) {
        Some(input) => match feed_forward_row(m.kernel, head.layer.mlp, input) {
            Some(out) => match added(m.kernel, h, out) {
                Some(sum) => norm_of(m.kernel, sum, head.norm, eps),
                None => None,
            },
            None => None,
        },
        None => None,
    }
}

/// One position through the head: its cache after it and the state it leaves.
pub open spec fn mtp_row<K: Kernel>(m: DecoderModel<K>, view: LayerView<K::Cell>, state: Seq<K::Cell>, token: usize, position: int) -> Option<(LayerView<K::Cell>, Seq<K::Cell>)> {
    match m.mtp {
        Some(head) => match mtp_input(m, head, state, token) {
            Some(x) => match norm_of(m.kernel, x, head.layer.input_norm, m.config.rms_eps) {
                Some(normed) => match cached_row(m.kernel, m.config, head.layer.attention, view, normed, position) {
                    Some((after, context)) => match linear_row(m.kernel, head.layer.attention.o_proj, context) {
                        Some(attn) => match added(m.kernel, x, attn) {
                            Some(h) => match mtp_output(m, head, h) {
                                Some(out) => Some((after, out)),
                                None => None,
                            },
                            None => None,
                        },
                        None => None,
                    },
                    None => None,
                },
                None => None,
            },
            None => None,
        },
        None => None,
    }
}

/// Two rows side by side.
pub fn concat_row_pair<C: Copy>(left: &Vec<C>, right: &Vec<C>) -> (out: Vec<C>)
    ensures
        out@ == left@ + right@,
{
    let mut out: Vec<C> = copy_cells(left);
    for i in 0..right.len()
        invariant
            out@ == left@ + right@.take(i as int),
    {
        out.push(right[i]);
        assert(left@ + right@.take(i + 1) =~= (left@ + right@.take(i as int)).push(right@[i as int]));
    }
    assert(right@.take(right@.len() as int) =~= right@);
    out
}

impl<K: Kernel> DecoderModel<K> {
    fn mtp_input_row(&self, head: &MtpHead<K::Cell>, state: &Vec<K::Cell>, token: usize) -> (out: Result<Vec<K::Cell>, InferError>)
        requires
            head.wf(),
        ensures
            out matches Err(error) ==> error is Dimension,
            functional(self.kernel) ==> match out {
                Ok(out) => mtp_input(*self, *head, state@, token) == Some(out@),
                Err(_) => mtp_input(*self, *head, state@, token) is None,
            },
    {
        let k: &K = &self.kernel;
        let mut one: Vec<usize> = Vec::new();
        one.push(token);
        let embedding: Tensor<K::Cell> = match self.embed_scaled(&one) {
            Ok(embedding) => embedding,
            Err(error) => {
                proof {
                    if functional(*k) {
                        assert(one@[0] == token);
                        assert(embed_row(*self, token) is None);
                    }
                }
                return Err(error);
            },
        };
        proof {
            embedding.lemma_rows();
            if functional(*k) {
                assert(embed_row(*self, one@[0]) is Some);
            }
        }
        let embedding: Vec<K::Cell> = embedding.as_row()?;
        let left: Vec<K::Cell> = norm_row(k, &embedding, &head.pre_fc_norm_embedding, self.config.rms_eps)?;
        let right: Vec<K::Cell> = norm_row(k, state, &head.pre_fc_norm_hidden, self.config.rms_eps)?;
        let both: Vec<K::Cell> = concat_row_pair(&left, &right);
        apply_linear(k, &head.fc, &both)
    }

    fn mtp_output_row(&self, head: &MtpHead<K::Cell>, h: &Vec<K::Cell>) -> (out: Result<Vec<K::Cell>, InferError>)
        requires
            head.wf(),
        ensures
            out matches Err(error) ==> error is Dimension,
            functional(self.kernel) ==> match out {
                Ok(out) => mtp_output(*self, *head, h@) == Some(out@),
                Err(_) => mtp_output(*self, *head, h@) is None,
            },
    {
        let k: &K = &self.kernel;
        let input: Vec<K::Cell> = norm_row(k, h, &head.layer.post_attention_norm, self.config.rms_eps)?;
        let out: Vec<K::Cell> = apply_feed_forward(k, &head.layer.mlp, &input)?;
        let sum: Vec<K::Cell> = add_row(k, h, &out)?;
        norm_row(k, &sum, &head.norm, self.config.rms_eps)
    }

    /// Takes one position through the head. Refused where there is no head.
    pub fn mtp_forward_post_hidden(&self, hidden: &Tensor<K::Cell>, next_id: usize, position: usize, mtp_cache: &mut LayerKvCache<K::Cell>) -> (out: Result<Tensor<K::Cell>, InferError>)
        requires
            self.wf(),
            hidden.is_matrix(),
            hidden.shape@[0] == 1,
            old(mtp_cache)@.wf(),
        ensures
            out matches Err(error) ==> error is Dimension || (self.mtp is None && error is Config),
            final(mtp_cache)@.wf(),
            out matches Ok(out) ==> out.is_matrix() && out.shape@[0] == 1,
            self.mtp is None ==> (out matches Err(error) && error is Config),
            functional(self.kernel) ==> match out {
                Ok(out) => mtp_row(*self, old(mtp_cache)@, hidden.rows()[0], next_id, position as int) == Some(
                    (final(mtp_cache)@, out.rows()[0]),
                ),
                Err(_) => mtp_row(*self, old(mtp_cache)@, hidden.rows()[0], next_id, position as int) is None,
            },
    {
        let k: &K = &self.kernel;
        let head: &MtpHead<K::Cell> = match &self.mtp {
            Some(head) => head,
            None => {
                return Err(InferError::Config("no head to guess tokens with"));
            },
        };
        proof {
            hidden.lemma_rows();
            assert(crate::tensor::row_of(hidden.data@, hidden.cols(), 0) =~= hidden.data@);
        }
        let x: Vec<K::Cell> = self.mtp_input_row(head, &hidden.data, next_id)?;
        let normed: Vec<K::Cell> = norm_row(k, &x, &head.layer.input_norm, self.config.rms_eps)?;
        let normed: Tensor<K::Cell> = Tensor::row(normed);
        proof {
            normed.lemma_rows();
        }
        let context: Tensor<K::Cell> = full_attention_context_cached(
            k,
            &self.config,
            &normed,
            mtp_cache,
            position,
            &head.layer.attention,
        )?;
        proof {
            context.lemma_rows();
            assert(crate::tensor::row_of(context.data@, context.cols(), 0) =~= context.data@);
        }
        let attn: Vec<K::Cell> = apply_linear(k, &head.layer.attention.o_proj, &context.data)?;
        let h: Vec<K::Cell> = add_row(k, &x, &attn)?;
        let out: Vec<K::Cell> = self.mtp_output_row(head, &h)?;
        Ok(Tensor::row(out))
    }
}

} // verus!
