//! A draft head and its output map, read from files of their own.

use vstd::prelude::*;
use vstd::string::*;
use safetensors::SafeTensors;
use crate::affine::{bytes_to_u32, infer_mtp_affine_layout, layout_fault, layout_of, words_of};
use crate::archive::{archive_names, archive_tensor, contents, in_range, is_in_range, parsed, read_archive, Stored};
use crate::attention::FullAttention;
use crate::error::{Fault, InferError};
use crate::kernel::{at_most, at_most_of, binary, constant, constant_of, count, count_of, decode, decode_of, functional, Activation, Binary, Constant, Kernel};
use crate::linear::FeedForward;
use crate::loading::{linear_view, unbiased, LinearView};
use crate::mtp_head::{MtpHead, MtpLayer};
use crate::names::{head_key, joined, normalize_mtp_draft_lm_head_key, normalize_mtp_sidecar_key, output_key};
use crate::rows::{over, plus, sum_of};
use crate::store::{AffineView, WeightView};
use crate::tensor::{cells, Tensor};
use crate::weights::{AffineMatrix, GatedMlp, Linear, LinearWeight};

verus! {

/// Which names a file may give the weights.
#[derive(Clone, Copy, PartialEq, Eq, Structural)]
pub enum Naming {
    Head,
    Output,
}

/// The settled name of a name that a file gives.
pub open spec fn settled_name(naming: Naming, name: Seq<char>) -> Seq<char> {
    match naming {
        Naming::Head => head_key(name),
        Naming::Output => output_key(name),
    }
}

fn settle_name(naming: Naming, name: &String) -> (settled: String)
    ensures
        settled@ == settled_name(naming, name@),
{
    match naming {
        Naming::Head => normalize_mtp_sidecar_key(name),
        Naming::Output => normalize_mtp_draft_lm_head_key(name),
    }
}

/// The last of some names that settles to a key.
pub open spec fn last_named(names: Seq<String>, naming: Naming, key: Seq<char>) -> Option<Seq<char>>
    decreases names.len(),
{
    if names.len() == 0 {
        None
    } else if settled_name(naming, names.last()@) == key {
        Some(names.last()@)
    } else {
        last_named(names.drop_last(), naming, key)
    }
}

fn find_named(names: &Vec<String>, naming: Naming, key: &String) -> (found: Option<usize>)
    ensures
        match found {
            Some(i) => i < names@.len() && last_named(names@, naming, key@) == Some(names@[i as int]@),
            None => last_named(names@, naming, key@) is None,
        },
{
    let mut left: usize = names.len();
    assert(names@.take(left as int) =~= names@);
    while left > 0
        invariant
            left <= names@.len(),
            last_named(names@, naming, key@) == last_named(names@.take(left as int), naming, key@),
        decreases left,
    {
        assert(names@.take(left as int).drop_last() =~= names@.take(left - 1));
        let settled: String = settle_name(naming, &names[left - 1]);
        if settled == *key {
            return Some(left - 1);
        }
        left = left - 1;
    }
    None
}

/// What a file holds under a settled name.
pub open spec fn stored_in(files: Map<Seq<char>, (Seq<char>, Seq<usize>, Seq<u8>)>, names: Seq<String>, naming: Naming, key: Seq<char>) -> Result<Stored, Fault> {
    match last_named(names, naming, key) {
        Some(name) => if files.contains_key(name) {
            Ok(files[name])
        } else {
            Err(Fault::Config)
        },
        None => Err(Fault::Missing(key)),
    }
}

fn st_view(archive: &SafeTensors<'_>, names: &Vec<String>, naming: Naming, key: &String) -> (out: Result<(String, Vec<usize>, Vec<u8>), InferError>)
    ensures
        match out {
            Ok((format, shape, data)) => stored_in(contents(*archive), names@, naming, key@) == Result::<Stored, Fault>::Ok((format@, shape@, data@)),
            Err(error) => stored_in(contents(*archive), names@, naming, key@) == Result::<Stored, Fault>::Err(error.fault()),
        },
{
    match find_named(names, naming, key) {
        Some(i) => match archive_tensor(archive, &names[i]) {
            Ok(stored) => Ok(stored),
            Err(_) => Err(InferError::Config("file does not hold the tensor")),
        },
        None => Err(InferError::MissingWeight(key.clone())),
    }
}

/// A tensor by its shape and numbers.
pub type Numbers<C> = (Seq<usize>, Seq<C>);

/// A stored tensor as numbers.
pub open spec fn numbers_of<K: Kernel>(k: K, stored: Stored) -> Result<Numbers<K::Cell>, Fault> {
    match decode_of(k, stored.0, stored.2) {
        Some(data) => if data.len() == cells(stored.1) {
            Ok((stored.1, data))
        } else {
            Err(Fault::Shape)
        },
        None => Err(Fault::Config),
    }
}

pub fn decode_tensor<K: Kernel>(k: &K, format: &String, shape: Vec<usize>, data: &Vec<u8>) -> (out: Result<Tensor<K::Cell>, InferError>)
    ensures
        out matches Ok(tensor) ==> tensor.wf() && tensor.shape@ == shape@,
        functional(*k) ==> match out {
            Ok(tensor) => numbers_of(*k, (format@, shape@, data@)) == Result::<Numbers<K::Cell>, Fault>::Ok((tensor.shape@, tensor.data@)),
            Err(error) => numbers_of(*k, (format@, shape@, data@)) == Result::<Numbers<K::Cell>, Fault>::Err(error.fault()),
        },
{
    match decode(k, format, data) {
        Some(numbers) => Tensor::from_vec(shape, numbers),
        None => Err(InferError::Config("number format that cannot be read")),
    }
}

/// A tensor of a file as numbers.
pub open spec fn numbers_in<K: Kernel>(k: K, files: Map<Seq<char>, (Seq<char>, Seq<usize>, Seq<u8>)>, names: Seq<String>, naming: Naming, key: Seq<char>) -> Result<Numbers<K::Cell>, Fault> {
    match stored_in(files, names, naming, key) {
        Ok(stored) => numbers_of(k, stored),
        Err(fault) => Err(fault),
    }
}

fn load_numbers<K: Kernel>(k: &K, archive: &SafeTensors<'_>, names: &Vec<String>, naming: Naming, key: &String) -> (out: Result<
    Tensor<K::Cell>,
    InferError,
>)
    ensures
        out matches Ok(tensor) ==> tensor.wf(),
        functional(*k) ==> match out {
            Ok(tensor) => numbers_in(*k, contents(*archive), names@, naming, key@) == Result::<Numbers<K::Cell>, Fault>::Ok(
                (tensor.shape@, tensor.data@),
            ),
            Err(error) => numbers_in(*k, contents(*archive), names@, naming, key@) == Result::<Numbers<K::Cell>, Fault>::Err(error.fault()),
        },
{
    let (format, shape, data) = st_view(archive, names, naming, key)?;
    decode_tensor(k, &format, shape, &data)
}

/// The mean of a row.
pub open spec fn mean_of<K: Kernel>(k: K, row: Seq<K::Cell>) -> K::Cell {
    over(k, sum_of(k, row), count_of(k, row.len() as usize))
}

fn mean<K: Kernel>(k: &K, row: &Vec<K::Cell>) -> (out: K::Cell)
    ensures
        functional(*k) ==> out == mean_of(*k, row@),
{
    let mut total: K::Cell = constant(k, Constant::Zero);
    let n: usize = row.len();
    assert(row@.take(0) =~= Seq::empty());
    for i in 0..n
        invariant
            n == row@.len(),
            functional(*k) ==> total == sum_of(*k, row@.take(i as int)),
    {
        assert(row@.take(i + 1).drop_last() =~= row@.take(i as int));
        total = binary(k, Binary::Add, total, row[i]);
    }
    assert(row@.take(n as int) =~= row@);
    let divisor: K::Cell = count(k, n);
    binary(k, Binary::Div, total, divisor)
}

/// The number is under one half.
pub open spec fn under_half<K: Kernel>(k: K, value: K::Cell) -> bool {
    let half = constant_of(k, Constant::Half);
    at_most_of(k, value, half) && !at_most_of(k, half, value)
}

/// The weight of a norm. A file may store how far its numbers are from one: their mean is
/// then under one half, and one is added to each.
pub open spec fn norm_weight<K: Kernel>(k: K, numbers: Numbers<K::Cell>) -> Numbers<K::Cell> {
    if numbers.0.len() == 1 && numbers.1.len() > 0 && under_half(k, mean_of(k, numbers.1)) {
        (numbers.0, Seq::new(numbers.1.len(), |i: int| plus(k, numbers.1[i], constant_of(k, Constant::One))))
    } else {
        numbers
    }
}

pub open spec fn norm_in<K: Kernel>(k: K, files: Map<Seq<char>, (Seq<char>, Seq<usize>, Seq<u8>)>, names: Seq<String>, key: Seq<char>) -> Result<Numbers<K::Cell>, Fault> {
    match numbers_in(k, files, names, Naming::Head, key) {
        Ok(numbers) => Ok(norm_weight(k, numbers)),
        Err(fault) => Err(fault),
    }
}

fn load_mtp_norm<K: Kernel>(k: &K, archive: &SafeTensors<'_>, names: &Vec<String>, key: &str) -> (out: Result<Tensor<K::Cell>, InferError>)
    ensures
        functional(*k) ==> match out {
            Ok(tensor) => norm_in(*k, contents(*archive), names@, key@) == Result::<Numbers<K::Cell>, Fault>::Ok((tensor.shape@, tensor.data@)),
            Err(error) => norm_in(*k, contents(*archive), names@, key@) == Result::<Numbers<K::Cell>, Fault>::Err(error.fault()),
        },
{
    let key: String = String::from_str(key);
    let tensor: Tensor<K::Cell> = load_numbers(k, archive, names, Naming::Head, &key)?;
    if tensor.shape.len() != 1 || tensor.data.len() == 0 {
        return Ok(tensor);
    }
    let mean: K::Cell = mean(k, &tensor.data);
    let half: K::Cell = constant(k, Constant::Half);
    let low: bool = at_most(k, mean, half);
    let high: bool = at_most(k, half, mean);
    if !low || high {
        return Ok(tensor);
    }
    let one: K::Cell = constant(k, Constant::One);
    let mut data: Vec<K::Cell> = Vec::new();
    let n: usize = tensor.data.len();
    for i in 0..n
        invariant
            n == tensor.data@.len(),
            data@.len() == i,
            functional(*k) ==> one == constant_of(*k, Constant::One),
            functional(*k) ==> forall|j: int| 0 <= j < i ==> data@[j] == plus(*k, tensor.data@[j], one),
    {
        let raised: K::Cell = binary(k, Binary::Add, tensor.data[i], one);
        data.push(raised);
    }
    assert(functional(*k) ==> data@ =~= norm_weight(*k, (tensor.shape@, tensor.data@)).1);
    Ok(Tensor { shape: tensor.shape, data })
}

/// A packed weight from its words, its scales and its biases.
pub open spec fn packed_weight<C>(shape: Seq<usize>, words: Option<Seq<u32>>, scales: Numbers<C>, biases: Numbers<C>, fixed: Option<usize>, columns: Option<usize>) -> Result<AffineView<C>, Fault> {
    match layout_of(shape, scales.0, fixed, columns) {
        Some((bits, group_size)) => if biases.0 != scales.0 {
            Err(Fault::Dimension)
        } else if words is None || (words->0).len() != shape[0] * shape[1] {
            Err(Fault::Shape)
        } else {
            Ok(
                AffineView {
                    rows: shape[0],
                    cols: (group_size * scales.0[1]) as usize,
                    bits: bits as usize,
                    group_size: group_size as usize,
                    packed: words->0,
                    scales: scales.1,
                    biases: biases.1,
                },
            )
        },
        None => Err(layout_fault(shape, scales.0, fixed, columns)),
    }
}

/// A linear map of a file: packed where it has scales, else dense.
pub open spec fn map_in<K: Kernel>(k: K, files: Map<Seq<char>, (Seq<char>, Seq<usize>, Seq<u8>)>, names: Seq<String>, naming: Naming, prefix: Seq<char>, fixed: Option<usize>, columns: Option<usize>) -> Result<LinearView<K::Cell>, Fault> {
    match stored_in(files, names, naming, prefix + ".weight"@) {
        Ok(weight) => if last_named(names, naming, prefix + ".scales"@) is Some {
            if words_of(weight.2) is None {
                Err(Fault::Shape)
            } else {
                match numbers_in(k, files, names, naming, prefix + ".scales"@) {
                    Ok(scales) => match numbers_in(k, files, names, naming, prefix + ".biases"@) {
                        Ok(biases) => match packed_weight(weight.1, words_of(weight.2), scales, biases, fixed, columns) {
                            Ok(matrix) => Ok(unbiased(WeightView::AffineQuantized(matrix))),
                            Err(fault) => Err(fault),
                        },
                        Err(fault) => Err(fault),
                    },
                    Err(fault) => Err(fault),
                }
            }
        } else {
            match numbers_of(k, weight) {
                Ok(numbers) => if numbers.0.len() == 2 {
                    Ok(unbiased(WeightView::Dense(numbers.0, numbers.1)))
                } else {
                    Err(Fault::Dimension)
                },
                Err(fault) => Err(fault),
            }
        },
        Err(fault) => Err(fault),
    }
}

fn pack_weight<C: Copy>(shape: &Vec<usize>, packed: Vec<u32>, scales: Tensor<C>, biases: Tensor<C>, fixed: Option<usize>, columns: Option<usize>) -> (out: Result<
    AffineMatrix<C>,
    InferError,
>)
    ensures
        ({
            let owed = packed_weight(shape@, Some(packed@), (scales.shape@, scales.data@), (biases.shape@, biases.data@), fixed, columns);
            match out {
                Ok(matrix) => owed == Result::<AffineView<C>, Fault>::Ok(crate::store::affine_view(matrix)),
                Err(error) => owed == Result::<AffineView<C>, Fault>::Err(error.fault()),
            }
        }),
{
    let (bits, group_size) = infer_mtp_affine_layout(shape, &scales.shape, fixed, columns)?;
    proof {
        crate::affine::law_groups_fill_the_row(shape@, scales.shape@, fixed, columns);
    }
    if biases.shape.len() != 2 || biases.shape[0] != scales.shape[0] || biases.shape[1] != scales.shape[1] {
        return Err(InferError::Dimension("biases and scales differ in shape"));
    }
    assert(biases.shape@ =~= scales.shape@);
    let words: usize = packed.len();
    let rows: usize = shape[0];
    match rows.checked_mul(shape[1]) {
        Some(cells) => if cells != words {
            return Err(InferError::Shape("packed words do not fill the shape"));
        },
        None => {
            return Err(InferError::Shape("packed weight too large"));
        },
    }
    let groups: usize = scales.shape[1];
    let cols: usize = group_size * groups;
    Ok(AffineMatrix { rows, cols, bits, group_size, packed, scales: scales.data, biases: biases.data })
}

fn load_linear<K: Kernel>(k: &K, archive: &SafeTensors<'_>, names: &Vec<String>, naming: Naming, prefix: &str, fixed: Option<usize>, columns: Option<usize>) -> (out: Result<
    Linear<K::Cell>,
    InferError,
>)
    ensures
        out matches Ok(linear) ==> linear.wf(),
        functional(*k) ==> match out {
            Ok(linear) => map_in(*k, contents(*archive), names@, naming, prefix@, fixed, columns) == Result::<LinearView<K::Cell>, Fault>::Ok(
                linear_view(linear),
            ),
            Err(error) => map_in(*k, contents(*archive), names@, naming, prefix@, fixed, columns) == Result::<LinearView<K::Cell>, Fault>::Err(
                error.fault(),
            ),
        },
{
    let (format, shape, data) = st_view(archive, names, naming, &joined(prefix, ".weight"))?;
    let scales_key: String = joined(prefix, ".scales");
    if find_named(names, naming, &scales_key).is_some() {
        let packed: Vec<u32> = bytes_to_u32(&data)?;
        let scales: Tensor<K::Cell> = load_numbers(k, archive, names, naming, &scales_key)?;
        let biases: Tensor<K::Cell> = load_numbers(k, archive, names, naming, &joined(prefix, ".biases"))?;
        let matrix: AffineMatrix<K::Cell> = pack_weight(&shape, packed, scales, biases, fixed, columns)?;
        Linear::from_weight(LinearWeight::AffineQuantized(matrix), None)
    } else {
        let dense: Tensor<K::Cell> = decode_tensor(k, &format, shape, &data)?;
        Linear::from_weight(LinearWeight::Dense(dense), None)
    }
}

fn load_mtp_linear<K: Kernel>(k: &K, archive: &SafeTensors<'_>, names: &Vec<String>, prefix: &str) -> (out: Result<Linear<K::Cell>, InferError>)
    ensures
        out matches Ok(linear) ==> linear.wf(),
        functional(*k) ==> match out {
            Ok(linear) => map_in(*k, contents(*archive), names@, Naming::Head, prefix@, Some(4), None) == Result::<LinearView<K::Cell>, Fault>::Ok(
                linear_view(linear),
            ),
            Err(error) => map_in(*k, contents(*archive), names@, Naming::Head, prefix@, Some(4), None) == Result::<LinearView<K::Cell>, Fault>::Err(
                error.fault(),
            ),
        },
{
    load_linear(k, archive, names, Naming::Head, prefix, Some(4), None)
}

/// The attention of a draft head by its numbers.
pub struct AttentionParts<C> {
    pub q_proj: LinearView<C>,
    pub k_proj: LinearView<C>,
    pub v_proj: LinearView<C>,
    pub o_proj: LinearView<C>,
    pub q_norm: Numbers<C>,
    pub k_norm: Numbers<C>,
}

/// A draft head by its numbers.
pub struct HeadParts<C> {
    pub pre_fc_norm_embedding: Numbers<C>,
    pub pre_fc_norm_hidden: Numbers<C>,
    pub fc: LinearView<C>,
    pub input_norm: Numbers<C>,
    pub attention: AttentionParts<C>,
    pub post_attention_norm: Numbers<C>,
    pub gate_proj: LinearView<C>,
    pub up_proj: LinearView<C>,
    pub down_proj: LinearView<C>,
    pub norm: Numbers<C>,
}

pub open spec fn tensor_numbers<C>(tensor: Tensor<C>) -> Numbers<C> {
    (tensor.shape@, tensor.data@)
}

/// The attention has these numbers, and takes all else from the model.
pub open spec fn is_attention<C>(attention: FullAttention<C>, parts: AttentionParts<C>) -> bool {
    &&& linear_view(attention.q_proj) == parts.q_proj
    &&& linear_view(attention.k_proj) == parts.k_proj
    &&& attention.v_proj matches Some(v_proj) && linear_view(v_proj) == parts.v_proj
    &&& linear_view(attention.o_proj) == parts.o_proj
    &&& attention.q_norm matches Some(q_norm) && tensor_numbers(q_norm) == parts.q_norm
    &&& attention.k_norm matches Some(k_norm) && tensor_numbers(k_norm) == parts.k_norm
    &&& attention.num_key_value_heads is None
    &&& attention.head_dim is None
    &&& attention.rope_dims is None
    &&& attention.rope_frequency_dim is None
    &&& !attention.value_norm
    &&& attention.rope_theta is None
    &&& attention.rope_position_scale is None
    &&& attention.sliding_window is None
}

/// The draft head has these numbers.
pub open spec fn is_head<C>(head: MtpHead<C>, parts: HeadParts<C>) -> bool {
    &&& tensor_numbers(head.pre_fc_norm_embedding) == parts.pre_fc_norm_embedding
    &&& tensor_numbers(head.pre_fc_norm_hidden) == parts.pre_fc_norm_hidden
    &&& linear_view(head.fc) == parts.fc
    &&& tensor_numbers(head.layer.input_norm) == parts.input_norm
    &&& is_attention(head.layer.attention, parts.attention)
    &&& tensor_numbers(head.layer.post_attention_norm) == parts.post_attention_norm
    &&& head.layer.mlp matches FeedForward::Dense(mlp) && linear_view(mlp.gate_proj) == parts.gate_proj && linear_view(mlp.up_proj)
        == parts.up_proj && linear_view(mlp.down_proj) == parts.down_proj && mlp.activation == Activation::Silu
    &&& tensor_numbers(head.norm) == parts.norm
}

pub open spec fn attention_in<K: Kernel>(k: K, files: Map<Seq<char>, (Seq<char>, Seq<usize>, Seq<u8>)>, names: Seq<String>) -> Result<AttentionParts<K::Cell>, Fault> {
    match map_in(k, files, names, Naming::Head, "mtp.layers.0.self_attn.q_proj"@, Some(4), None) {
        Ok(q_proj) => match map_in(k, files, names, Naming::Head, "mtp.layers.0.self_attn.k_proj"@, Some(4), None) {
            Ok(k_proj) => match map_in(k, files, names, Naming::Head, "mtp.layers.0.self_attn.v_proj"@, Some(4), None) {
                Ok(v_proj) => match map_in(k, files, names, Naming::Head, "mtp.layers.0.self_attn.o_proj"@, Some(4), None) {
                    Ok(o_proj) => match norm_in(k, files, names, "mtp.layers.0.self_attn.q_norm.weight"@) {
                        Ok(q_norm) => match norm_in(k, files, names, "mtp.layers.0.self_attn.k_norm.weight"@) {
                            Ok(k_norm) => Ok(AttentionParts { q_proj, k_proj, v_proj, o_proj, q_norm, k_norm }),
                            Err(fault) => Err(fault),
                        },
                        Err(fault) => Err(fault),
                    },
                    Err(fault) => Err(fault),
                },
                Err(fault) => Err(fault),
            },
            Err(fault) => Err(fault),
        },
        Err(fault) => Err(fault),
    }
}

/// The draft head of a file. A file without a gated block is of a kind that is not read.
pub open spec fn head_in<K: Kernel>(k: K, files: Map<Seq<char>, (Seq<char>, Seq<usize>, Seq<u8>)>, names: Seq<String>) -> Result<HeadParts<K::Cell>, Fault> {
    if last_named(names, Naming::Head, "mtp.layers.0.mlp.gate_proj.weight"@) is None {
        Err(Fault::Config)
    } else {
        match norm_in(k, files, names, "mtp.pre_fc_norm_embedding.weight"@) {
            Ok(pre_fc_norm_embedding) => match norm_in(k, files, names, "mtp.pre_fc_norm_hidden.weight"@) {
                Ok(pre_fc_norm_hidden) => match map_in(k, files, names, Naming::Head, "mtp.fc"@, Some(4), None) {
                    Ok(fc) => match norm_in(k, files, names, "mtp.layers.0.input_layernorm.weight"@) {
                        Ok(input_norm) => match attention_in(k, files, names) {
                            Ok(attention) => match norm_in(k, files, names, "mtp.layers.0.post_attention_layernorm.weight"@) {
                                Ok(post_attention_norm) => match map_in(k, files, names, Naming::Head, "mtp.layers.0.mlp.gate_proj"@, Some(4), None) {
                                    Ok(gate_proj) => match map_in(k, files, names, Naming::Head, "mtp.layers.0.mlp.up_proj"@, Some(4), None) {
                                        Ok(up_proj) => match map_in(k, files, names, Naming::Head, "mtp.layers.0.mlp.down_proj"@, Some(4), None) {
                                            Ok(down_proj) => match norm_in(k, files, names, "mtp.norm.weight"@) {
                                                Ok(norm) => Ok(
                                            HeadParts {
                                                pre_fc_norm_embedding,
                                                pre_fc_norm_hidden,
                                                fc,
                                                input_norm,
                                                attention,
                                                post_attention_norm,
                                                gate_proj,
                                                up_proj,
                                                down_proj,
                                                norm,
                                            },
                                        ),
                                                Err(fault) => Err(fault),
                                            },
                                            Err(fault) => Err(fault),
                                        },
                                        Err(fault) => Err(fault),
                                    },
                                    Err(fault) => Err(fault),
                                },
                                Err(fault) => Err(fault),
                            },
                            Err(fault) => Err(fault),
                        },
                        Err(fault) => Err(fault),
                    },
                    Err(fault) => Err(fault),
                },
                Err(fault) => Err(fault),
            },
            Err(fault) => Err(fault),
        }
    }
}

fn load_attention<K: Kernel>(k: &K, archive: &SafeTensors<'_>, names: &Vec<String>) -> (out: Result<FullAttention<K::Cell>, InferError>)
    ensures
        out matches Ok(attention) ==> attention.wf(),
        functional(*k) ==> match out {
            Ok(attention) => attention_in(*k, contents(*archive), names@) matches Ok(parts) && is_attention(attention, parts),
            Err(error) => attention_in(*k, contents(*archive), names@) == Result::<AttentionParts<K::Cell>, Fault>::Err(error.fault()),
        },
{
    let q_proj: Linear<K::Cell> = load_mtp_linear(k, archive, names, "mtp.layers.0.self_attn.q_proj")?;
    let k_proj: Linear<K::Cell> = load_mtp_linear(k, archive, names, "mtp.layers.0.self_attn.k_proj")?;
    let v_proj: Linear<K::Cell> = load_mtp_linear(k, archive, names, "mtp.layers.0.self_attn.v_proj")?;
    let o_proj: Linear<K::Cell> = load_mtp_linear(k, archive, names, "mtp.layers.0.self_attn.o_proj")?;
    let q_norm: Tensor<K::Cell> = load_mtp_norm(k, archive, names, "mtp.layers.0.self_attn.q_norm.weight")?;
    let k_norm: Tensor<K::Cell> = load_mtp_norm(k, archive, names, "mtp.layers.0.self_attn.k_norm.weight")?;
    Ok(
        FullAttention {
            q_proj,
            k_proj,
            v_proj: Some(v_proj),
            o_proj,
            q_norm: Some(q_norm),
            k_norm: Some(k_norm),
            num_key_value_heads: None,
            head_dim: None,
            rope_dims: None,
            rope_frequency_dim: None,
            value_norm: false,
            rope_theta: None,
            rope_position_scale: None,
            sliding_window: None,
        },
    )
}

/// The draft head of a file whose names are listed; of two names that settle to one, the
/// later counts.
fn load_head<K: Kernel>(k: &K, archive: &SafeTensors<'_>, names: &Vec<String>) -> (out: Result<MtpHead<K::Cell>, InferError>)
    ensures
        out matches Ok(head) ==> head.wf(),
        functional(*k) ==> match out {
            Ok(head) => head_in(*k, contents(*archive), names@) matches Ok(parts) && is_head(head, parts),
            Err(error) => head_in(*k, contents(*archive), names@) == Result::<HeadParts<K::Cell>, Fault>::Err(error.fault()),
        },
{
    let gated: String = String::from_str("mtp.layers.0.mlp.gate_proj.weight");
    if find_named(names, Naming::Head, &gated).is_none() {
        return Err(InferError::Config("draft head without a gated block"));
    }
    let pre_fc_norm_embedding: Tensor<K::Cell> = load_mtp_norm(k, archive, names, "mtp.pre_fc_norm_embedding.weight")?;
    let pre_fc_norm_hidden: Tensor<K::Cell> = load_mtp_norm(k, archive, names, "mtp.pre_fc_norm_hidden.weight")?;
    let fc: Linear<K::Cell> = load_mtp_linear(k, archive, names, "mtp.fc")?;
    let input_norm: Tensor<K::Cell> = load_mtp_norm(k, archive, names, "mtp.layers.0.input_layernorm.weight")?;
    let attention: FullAttention<K::Cell> = load_attention(k, archive, names)?;
    let post_attention_norm: Tensor<K::Cell> = load_mtp_norm(k, archive, names, "mtp.layers.0.post_attention_layernorm.weight")?;
    let gate_proj: Linear<K::Cell> = load_mtp_linear(k, archive, names, "mtp.layers.0.mlp.gate_proj")?;
    let up_proj: Linear<K::Cell> = load_mtp_linear(k, archive, names, "mtp.layers.0.mlp.up_proj")?;
    let down_proj: Linear<K::Cell> = load_mtp_linear(k, archive, names, "mtp.layers.0.mlp.down_proj")?;
    let norm: Tensor<K::Cell> = load_mtp_norm(k, archive, names, "mtp.norm.weight")?;
    let mlp: FeedForward<K::Cell> = FeedForward::Dense(GatedMlp { gate_proj, up_proj, down_proj, activation: Activation::Silu });
    Ok(MtpHead { pre_fc_norm_embedding, pre_fc_norm_hidden, fc, layer: MtpLayer { input_norm, attention, post_attention_norm, mlp }, norm })
}

/// The names of a file, each once, in some order.
pub open spec fn lists(names: Seq<String>, files: Map<Seq<char>, (Seq<char>, Seq<usize>, Seq<u8>)>) -> bool {
    &&& forall|i: int| 0 <= i < names.len() ==> files.contains_key((#[trigger] names[i])@)
    &&& forall|name: Seq<char>| #[trigger] files.contains_key(name) ==> exists|i: int| 0 <= i < names.len() && (#[trigger] names[i])@ == name
    &&& forall|i: int, j: int| 0 <= i < j < names.len() ==> (#[trigger] names[i])@ != (#[trigger] names[j])@
}

/// No two names of a file settle to one.
pub open spec fn unambiguous(files: Map<Seq<char>, (Seq<char>, Seq<usize>, Seq<u8>)>, naming: Naming) -> bool {
    forall|a: Seq<char>, b: Seq<char>|
        #[trigger] files.contains_key(a) && #[trigger] files.contains_key(b) && settled_name(naming, a) == settled_name(naming, b) ==> a == b
}

/// What a file says of a draft head, for the order in which its names were listed.
pub open spec fn head_read<K: Kernel>(k: K, bytes: Seq<u8>, names: Seq<String>, out: Result<MtpHead<K::Cell>, InferError>) -> bool {
    match parsed(bytes) {
        Some(files) => lists(names, files) && match out {
            Ok(head) => head_in(k, files, names) matches Ok(parts) && is_head(head, parts),
            Err(error) => head_in(k, files, names) == Result::<HeadParts<K::Cell>, Fault>::Err(error.fault()),
        },
        None => out matches Err(error) && error is Config,
    }
}

impl<C: Copy> MtpHead<C> {
    /// A draft head from the bytes of its file. Refused where they are not a file of
    /// tensors, or where their header speaks of a file beyond the machine's range.
    pub fn from_sidecar<K: Kernel<Cell = C>>(k: &K, bytes: &Vec<u8>) -> (out: Result<MtpHead<C>, InferError>)
        ensures
            out matches Ok(head) ==> head.wf(),
            !in_range(bytes@) ==> (out matches Err(error) && error is Config),
            in_range(bytes@) && functional(*k) ==> exists|names: Seq<String>| #[trigger] head_read(*k, bytes@, names, out),
    {
        if !is_in_range(bytes) {
            return Err(InferError::Config("header of the draft head out of range"));
        }
        match read_archive(bytes) {
            Ok(archive) => {
                let names: Vec<String> = archive_names(&archive);
                let out: Result<MtpHead<C>, InferError> = load_head(k, &archive, &names);
                assert(lists(names@, contents(archive)));
                assert(functional(*k) ==> head_read(*k, bytes@, names@, out));
                out
            },
            Err(_) => {
                let out: Result<MtpHead<C>, InferError> = Err(InferError::Config("draft head is not a file of tensors"));
                assert(head_read(*k, bytes@, Seq::empty(), out));
                out
            },
        }
    }
}

/// The output map of a draft head: its columns are as expected.
pub open spec fn output_in<K: Kernel>(k: K, files: Map<Seq<char>, (Seq<char>, Seq<usize>, Seq<u8>)>, names: Seq<String>, expected: usize) -> Result<LinearView<K::Cell>, Fault> {
    match map_in(k, files, names, Naming::Output, "lm_head"@, None, Some(expected)) {
        Ok(linear) => if linear.in_dim == expected {
            Ok(linear)
        } else {
            Err(Fault::Dimension)
        },
        Err(fault) => Err(fault),
    }
}

/// What a file says of an output map, for the order in which its names were listed.
pub open spec fn output_read<K: Kernel>(k: K, bytes: Seq<u8>, names: Seq<String>, expected: usize, out: Result<Linear<K::Cell>, InferError>) -> bool {
    match parsed(bytes) {
        Some(files) => lists(names, files) && match out {
            Ok(head) => output_in(k, files, names, expected) == Result::<LinearView<K::Cell>, Fault>::Ok(linear_view(head)),
            Err(error) => output_in(k, files, names, expected) == Result::<LinearView<K::Cell>, Fault>::Err(error.fault()),
        },
        None => out matches Err(error) && error is Config,
    }
}

fn load_output<K: Kernel>(k: &K, archive: &SafeTensors<'_>, names: &Vec<String>, expected_in_dim: usize) -> (out: Result<Linear<K::Cell>, InferError>)
    ensures
        out matches Ok(head) ==> head.wf() && head.in_dim == expected_in_dim,
        functional(*k) ==> match out {
            Ok(head) => output_in(*k, contents(*archive), names@, expected_in_dim) == Result::<LinearView<K::Cell>, Fault>::Ok(linear_view(head)),
            Err(error) => output_in(*k, contents(*archive), names@, expected_in_dim) == Result::<LinearView<K::Cell>, Fault>::Err(error.fault()),
        },
{
    let head: Linear<K::Cell> = load_linear(k, archive, names, Naming::Output, "lm_head", None, Some(expected_in_dim))?;
    if head.in_dim != expected_in_dim {
        return Err(InferError::Dimension("output map of the draft head takes another length"));
    }
    Ok(head)
}

/// The output map of a draft head from the bytes of its file. Refused where they are not a
/// file of tensors, or where their header speaks of a file beyond the machine's range.
pub fn load_mtp_draft_lm_head<K: Kernel>(k: &K, bytes: &Vec<u8>, expected_in_dim: usize) -> (out: Result<Linear<K::Cell>, InferError>)
    ensures
        out matches Ok(head) ==> head.wf() && head.in_dim == expected_in_dim,
        !in_range(bytes@) ==> (out matches Err(error) && error is Config),
        in_range(bytes@) && functional(*k) ==> exists|names: Seq<String>| #[trigger] output_read(*k, bytes@, names, expected_in_dim, out),
{
    if !is_in_range(bytes) {
        return Err(InferError::Config("header of the output map out of range"));
    }
    match read_archive(bytes) {
        Ok(archive) => {
            let names: Vec<String> = archive_names(&archive);
            let out: Result<Linear<K::Cell>, InferError> = load_output(k, &archive, &names, expected_in_dim);
            assert(lists(names@, contents(archive)));
            assert(functional(*k) ==> output_read(*k, bytes@, names@, expected_in_dim, out));
            out
        },
        Err(_) => {
            let out: Result<Linear<K::Cell>, InferError> = Err(InferError::Config("output map is not a file of tensors"));
            assert(output_read(*k, bytes@, Seq::empty(), expected_in_dim, out));
            out
        },
    }
}

/// A name is found where it stands.
proof fn lemma_last_named(names: Seq<String>, naming: Naming, key: Seq<char>)
    ensures
        match last_named(names, naming, key) {
            Some(name) => settled_name(naming, name) == key && exists|i: int| 0 <= i < names.len() && (#[trigger] names[i])@ == name,
            None => forall|i: int| 0 <= i < names.len() ==> settled_name(naming, (#[trigger] names[i])@) != key,
        },
    decreases names.len(),
{
    if names.len() > 0 {
        if settled_name(naming, names.last()@) != key {
            let fewer = names.drop_last();
            lemma_last_named(fewer, naming, key);
            if last_named(fewer, naming, key) is Some {
                let i = choose|i: int| 0 <= i < fewer.len() && (#[trigger] fewer[i])@ == last_named(fewer, naming, key)->0;
                assert(names[i] == fewer[i]);
            } else {
                assert forall|i: int| 0 <= i < names.len() implies settled_name(naming, (#[trigger] names[i])@) != key by {
                    if i < fewer.len() {
                        assert(names[i] == fewer[i]);
                    }
                }
            }
        } else {
            assert(names[names.len() - 1]@ == names.last()@);
        }
    }
}

/// Where no two names of a file settle to one, it does not matter in which order its
/// names are listed.
pub proof fn law_order_is_free(files: Map<Seq<char>, (Seq<char>, Seq<usize>, Seq<u8>)>, naming: Naming, names: Seq<String>, others: Seq<String>, key: Seq<char>)
    requires
        lists(names, files),
        lists(others, files),
        unambiguous(files, naming),
    ensures
        last_named(names, naming, key) == last_named(others, naming, key),
        stored_in(files, names, naming, key) == stored_in(files, others, naming, key),
{
    lemma_last_named(names, naming, key);
    lemma_last_named(others, naming, key);
    let one = last_named(names, naming, key);
    let other = last_named(others, naming, key);
    if one is Some {
        assert(files.contains_key(one->0));
        if other is None {
            let i = choose|i: int| 0 <= i < others.len() && (#[trigger] others[i])@ == one->0;
            assert(settled_name(naming, others[i]@) != key);
        } else {
            assert(files.contains_key(other->0));
        }
    } else if other is Some {
        assert(files.contains_key(other->0));
        let i = choose|i: int| 0 <= i < names.len() && (#[trigger] names[i])@ == other->0;
        assert(settled_name(naming, names[i]@) != key);
    }
}

} // verus!
