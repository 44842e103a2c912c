//! Which stored tensor becomes which part of a draft head.

use vstd::prelude::*;
use vstd::string::*;
use crate::affine::words_of;
use crate::error::Fault;
use crate::kernel::{at_most_of, binary_of, constant_of, Binary, Constant, Kernel};
use crate::linear::FeedForward;
use crate::loading::{linear_view, LinearView};
use crate::mtp_head::MtpHead;
use crate::numbers::{averages, repeated};
use crate::sidecar::{
    attention_in, head_in, is_head, last_named, map_in, mean_of, norm_in, norm_weight, numbers_in, output_in, stored_in, Naming, Numbers,
};
use crate::weights::{Linear, LinearWeight};
use crate::rows::sum_of;

verus! {

/// The tensors of a file by name: their format, their shape and their bytes.
pub type Files = Map<Seq<char>, (Seq<char>, Seq<usize>, Seq<u8>)>;

/// A linear map has the numbers that a file holds under its names: packed words with their
/// scales and biases where there are scales, and dense numbers where there are none.
pub open spec fn map_at<K: Kernel>(
    k: K,
    files: Files,
    names: Seq<String>,
    naming: Naming,
    weight: Seq<char>,
    scales: Seq<char>,
    biases: Seq<char>,
    linear: Linear<K::Cell>,
) -> bool {
    &&& linear.bias is None
    &&& if last_named(names, naming, scales) is Some {
        &&& linear.weight matches LinearWeight::AffineQuantized(matrix)
        &&& stored_in(files, names, naming, weight) matches Ok(stored) && words_of(stored.2) == Some(matrix.packed@) && stored.1.len() == 2 && matrix.rows
            == stored.1[0]
        &&& numbers_in(k, files, names, naming, scales) matches Ok(numbers) && numbers.1 == matrix.scales@
        &&& numbers_in(k, files, names, naming, biases) matches Ok(numbers) && numbers.1 == matrix.biases@
        &&& linear.out_dim == matrix.rows && linear.in_dim == matrix.cols
    } else {
        &&& linear.weight matches LinearWeight::Dense(tensor)
        &&& numbers_in(k, files, names, naming, weight) == Result::<Numbers<K::Cell>, Fault>::Ok((tensor.shape@, tensor.data@))
        &&& tensor.shape@ == seq![linear.out_dim, linear.in_dim]
    }
}

/// A linear map of a file is read from the names behind its prefix.
proof fn lemma_map<K: Kernel>(
    k: K,
    files: Files,
    names: Seq<String>,
    naming: Naming,
    prefix: Seq<char>,
    fixed: Option<usize>,
    columns: Option<usize>,
    linear: Linear<K::Cell>,
)
    ensures
        map_in(k, files, names, naming, prefix, fixed, columns) == Result::<LinearView<K::Cell>, Fault>::Ok(linear_view(linear)) ==> map_at(
            k,
            files,
            names,
            naming,
            prefix + ".weight"@,
            prefix + ".scales"@,
            prefix + ".biases"@,
            linear,
        ),
{
    if map_in(k, files, names, naming, prefix, fixed, columns) == Result::<LinearView<K::Cell>, Fault>::Ok(linear_view(linear)) {
        let view = linear_view(linear);
        if last_named(names, naming, prefix + ".scales"@) is None {
            assert(view.weight->Dense_0 =~= seq![view.out_dim, view.in_dim]);
        }
    }
}

proof fn lemma_names_fc()
    ensures
        "mtp.fc"@ + ".weight"@ == "mtp.fc.weight"@,
        "mtp.fc"@ + ".scales"@ == "mtp.fc.scales"@,
        "mtp.fc"@ + ".biases"@ == "mtp.fc.biases"@,
{
    reveal_strlit("mtp.fc");
    reveal_strlit(".weight");
    reveal_strlit("mtp.fc.weight");
    reveal_strlit(".scales");
    reveal_strlit("mtp.fc.scales");
    reveal_strlit(".biases");
    reveal_strlit("mtp.fc.biases");
    assert("mtp.fc"@ + ".weight"@ =~= "mtp.fc.weight"@);
    assert("mtp.fc"@ + ".scales"@ =~= "mtp.fc.scales"@);
    assert("mtp.fc"@ + ".biases"@ =~= "mtp.fc.biases"@);
}

proof fn lemma_names_q()
    ensures
        "mtp.layers.0.self_attn.q_proj"@ + ".weight"@ == "mtp.layers.0.self_attn.q_proj.weight"@,
        "mtp.layers.0.self_attn.q_proj"@ + ".scales"@ == "mtp.layers.0.self_attn.q_proj.scales"@,
        "mtp.layers.0.self_attn.q_proj"@ + ".biases"@ == "mtp.layers.0.self_attn.q_proj.biases"@,
{
    reveal_strlit("mtp.layers.0.self_attn.q_proj");
    reveal_strlit(".weight");
    reveal_strlit("mtp.layers.0.self_attn.q_proj.weight");
    reveal_strlit(".scales");
    reveal_strlit("mtp.layers.0.self_attn.q_proj.scales");
    reveal_strlit(".biases");
    reveal_strlit("mtp.layers.0.self_attn.q_proj.biases");
    assert("mtp.layers.0.self_attn.q_proj"@ + ".weight"@ =~= "mtp.layers.0.self_attn.q_proj.weight"@);
    assert("mtp.layers.0.self_attn.q_proj"@ + ".scales"@ =~= "mtp.layers.0.self_attn.q_proj.scales"@);
    assert("mtp.layers.0.self_attn.q_proj"@ + ".biases"@ =~= "mtp.layers.0.self_attn.q_proj.biases"@);
}

proof fn lemma_names_k()
    ensures
        "mtp.layers.0.self_attn.k_proj"@ + ".weight"@ == "mtp.layers.0.self_attn.k_proj.weight"@,
        "mtp.layers.0.self_attn.k_proj"@ + ".scales"@ == "mtp.layers.0.self_attn.k_proj.scales"@,
        "mtp.layers.0.self_attn.k_proj"@ + ".biases"@ == "mtp.layers.0.self_attn.k_proj.biases"@,
{
    reveal_strlit("mtp.layers.0.self_attn.k_proj");
    reveal_strlit(".weight");
    reveal_strlit("mtp.layers.0.self_attn.k_proj.weight");
    reveal_strlit(".scales");
    reveal_strlit("mtp.layers.0.self_attn.k_proj.scales");
    reveal_strlit(".biases");
    reveal_strlit("mtp.layers.0.self_attn.k_proj.biases");
    assert("mtp.layers.0.self_attn.k_proj"@ + ".weight"@ =~= "mtp.layers.0.self_attn.k_proj.weight"@);
    assert("mtp.layers.0.self_attn.k_proj"@ + ".scales"@ =~= "mtp.layers.0.self_attn.k_proj.scales"@);
    assert("mtp.layers.0.self_attn.k_proj"@ + ".biases"@ =~= "mtp.layers.0.self_attn.k_proj.biases"@);
}

proof fn lemma_names_v()
    ensures
        "mtp.layers.0.self_attn.v_proj"@ + ".weight"@ == "mtp.layers.0.self_attn.v_proj.weight"@,
        "mtp.layers.0.self_attn.v_proj"@ + ".scales"@ == "mtp.layers.0.self_attn.v_proj.scales"@,
        "mtp.layers.0.self_attn.v_proj"@ + ".biases"@ == "mtp.layers.0.self_attn.v_proj.biases"@,
{
    reveal_strlit("mtp.layers.0.self_attn.v_proj");
    reveal_strlit(".weight");
    reveal_strlit("mtp.layers.0.self_attn.v_proj.weight");
    reveal_strlit(".scales");
    reveal_strlit("mtp.layers.0.self_attn.v_proj.scales");
    reveal_strlit(".biases");
    reveal_strlit("mtp.layers.0.self_attn.v_proj.biases");
    assert("mtp.layers.0.self_attn.v_proj"@ + ".weight"@ =~= "mtp.layers.0.self_attn.v_proj.weight"@);
    assert("mtp.layers.0.self_attn.v_proj"@ + ".scales"@ =~= "mtp.layers.0.self_attn.v_proj.scales"@);
    assert("mtp.layers.0.self_attn.v_proj"@ + ".biases"@ =~= "mtp.layers.0.self_attn.v_proj.biases"@);
}

proof fn lemma_names_o()
    ensures
        "mtp.layers.0.self_attn.o_proj"@ + ".weight"@ == "mtp.layers.0.self_attn.o_proj.weight"@,
        "mtp.layers.0.self_attn.o_proj"@ + ".scales"@ == "mtp.layers.0.self_attn.o_proj.scales"@,
        "mtp.layers.0.self_attn.o_proj"@ + ".biases"@ == "mtp.layers.0.self_attn.o_proj.biases"@,
{
    reveal_strlit("mtp.layers.0.self_attn.o_proj");
    reveal_strlit(".weight");
    reveal_strlit("mtp.layers.0.self_attn.o_proj.weight");
    reveal_strlit(".scales");
    reveal_strlit("mtp.layers.0.self_attn.o_proj.scales");
    reveal_strlit(".biases");
    reveal_strlit("mtp.layers.0.self_attn.o_proj.biases");
    assert("mtp.layers.0.self_attn.o_proj"@ + ".weight"@ =~= "mtp.layers.0.self_attn.o_proj.weight"@);
    assert("mtp.layers.0.self_attn.o_proj"@ + ".scales"@ =~= "mtp.layers.0.self_attn.o_proj.scales"@);
    assert("mtp.layers.0.self_attn.o_proj"@ + ".biases"@ =~= "mtp.layers.0.self_attn.o_proj.biases"@);
}

proof fn lemma_names_gate()
    ensures
        "mtp.layers.0.mlp.gate_proj"@ + ".weight"@ == "mtp.layers.0.mlp.gate_proj.weight"@,
        "mtp.layers.0.mlp.gate_proj"@ + ".scales"@ == "mtp.layers.0.mlp.gate_proj.scales"@,
        "mtp.layers.0.mlp.gate_proj"@ + ".biases"@ == "mtp.layers.0.mlp.gate_proj.biases"@,
{
    reveal_strlit("mtp.layers.0.mlp.gate_proj");
    reveal_strlit(".weight");
    reveal_strlit("mtp.layers.0.mlp.gate_proj.weight");
    reveal_strlit(".scales");
    reveal_strlit("mtp.layers.0.mlp.gate_proj.scales");
    reveal_strlit(".biases");
    reveal_strlit("mtp.layers.0.mlp.gate_proj.biases");
    assert("mtp.layers.0.mlp.gate_proj"@ + ".weight"@ =~= "mtp.layers.0.mlp.gate_proj.weight"@);
    assert("mtp.layers.0.mlp.gate_proj"@ + ".scales"@ =~= "mtp.layers.0.mlp.gate_proj.scales"@);
    assert("mtp.layers.0.mlp.gate_proj"@ + ".biases"@ =~= "mtp.layers.0.mlp.gate_proj.biases"@);
}

proof fn lemma_names_up()
    ensures
        "mtp.layers.0.mlp.up_proj"@ + ".weight"@ == "mtp.layers.0.mlp.up_proj.weight"@,
        "mtp.layers.0.mlp.up_proj"@ + ".scales"@ == "mtp.layers.0.mlp.up_proj.scales"@,
        "mtp.layers.0.mlp.up_proj"@ + ".biases"@ == "mtp.layers.0.mlp.up_proj.biases"@,
{
    reveal_strlit("mtp.layers.0.mlp.up_proj");
    reveal_strlit(".weight");
    reveal_strlit("mtp.layers.0.mlp.up_proj.weight");
    reveal_strlit(".scales");
    reveal_strlit("mtp.layers.0.mlp.up_proj.scales");
    reveal_strlit(".biases");
    reveal_strlit("mtp.layers.0.mlp.up_proj.biases");
    assert("mtp.layers.0.mlp.up_proj"@ + ".weight"@ =~= "mtp.layers.0.mlp.up_proj.weight"@);
    assert("mtp.layers.0.mlp.up_proj"@ + ".scales"@ =~= "mtp.layers.0.mlp.up_proj.scales"@);
    assert("mtp.layers.0.mlp.up_proj"@ + ".biases"@ =~= "mtp.layers.0.mlp.up_proj.biases"@);
}

proof fn lemma_names_down()
    ensures
        "mtp.layers.0.mlp.down_proj"@ + ".weight"@ == "mtp.layers.0.mlp.down_proj.weight"@,
        "mtp.layers.0.mlp.down_proj"@ + ".scales"@ == "mtp.layers.0.mlp.down_proj.scales"@,
        "mtp.layers.0.mlp.down_proj"@ + ".biases"@ == "mtp.layers.0.mlp.down_proj.biases"@,
{
    reveal_strlit("mtp.layers.0.mlp.down_proj");
    reveal_strlit(".weight");
    reveal_strlit("mtp.layers.0.mlp.down_proj.weight");
    reveal_strlit(".scales");
    reveal_strlit("mtp.layers.0.mlp.down_proj.scales");
    reveal_strlit(".biases");
    reveal_strlit("mtp.layers.0.mlp.down_proj.biases");
    assert("mtp.layers.0.mlp.down_proj"@ + ".weight"@ =~= "mtp.layers.0.mlp.down_proj.weight"@);
    assert("mtp.layers.0.mlp.down_proj"@ + ".scales"@ =~= "mtp.layers.0.mlp.down_proj.scales"@);
    assert("mtp.layers.0.mlp.down_proj"@ + ".biases"@ =~= "mtp.layers.0.mlp.down_proj.biases"@);
}

proof fn lemma_names_output()
    ensures
        "lm_head"@ + ".weight"@ == "lm_head.weight"@,
        "lm_head"@ + ".scales"@ == "lm_head.scales"@,
        "lm_head"@ + ".biases"@ == "lm_head.biases"@,
{
    reveal_strlit("lm_head");
    reveal_strlit(".weight");
    reveal_strlit("lm_head.weight");
    reveal_strlit(".scales");
    reveal_strlit("lm_head.scales");
    reveal_strlit(".biases");
    reveal_strlit("lm_head.biases");
    assert("lm_head"@ + ".weight"@ =~= "lm_head.weight"@);
    assert("lm_head"@ + ".scales"@ =~= "lm_head.scales"@);
    assert("lm_head"@ + ".biases"@ =~= "lm_head.biases"@);
}

/// A norm's weight is read from a name: it holds the numbers there, or each of them with one
/// added.
pub open spec fn norm_at<K: Kernel>(k: K, files: Files, names: Seq<String>, key: Seq<char>, weight: Numbers<K::Cell>) -> bool {
    &&& numbers_in(k, files, names, Naming::Head, key) matches Ok(stored) && stored.0 == weight.0 && stored.1.len() == weight.1.len() && (weight.1 == stored.1
        || forall|i: int| 0 <= i < weight.1.len() ==> #[trigger] weight.1[i] == binary_of(k, Binary::Add, stored.1[i], constant_of(k, Constant::One)))
}

proof fn lemma_norm<K: Kernel>(k: K, files: Files, names: Seq<String>, key: Seq<char>)
    ensures
        norm_in(k, files, names, key) matches Ok(weight) ==> norm_at(k, files, names, key, weight),
{
}

/// A draft head takes each of its parts from the name of that part.
#[verifier::spinoff_prover]
pub proof fn law_head_by_name<K: Kernel>(k: K, files: Files, names: Seq<String>, head: MtpHead<K::Cell>)
    requires
        head_in(k, files, names) matches Ok(parts) && is_head(head, parts),
    ensures
        norm_at(k, files, names, "mtp.pre_fc_norm_embedding.weight"@, (head.pre_fc_norm_embedding.shape@, head.pre_fc_norm_embedding.data@)),
        norm_at(k, files, names, "mtp.pre_fc_norm_hidden.weight"@, (head.pre_fc_norm_hidden.shape@, head.pre_fc_norm_hidden.data@)),
        norm_at(k, files, names, "mtp.layers.0.input_layernorm.weight"@, (head.layer.input_norm.shape@, head.layer.input_norm.data@)),
        norm_at(k, files, names, "mtp.layers.0.post_attention_layernorm.weight"@, (head.layer.post_attention_norm.shape@, head.layer.post_attention_norm.data@)),
        norm_at(k, files, names, "mtp.norm.weight"@, (head.norm.shape@, head.norm.data@)),
        map_at(k, files, names, Naming::Head, "mtp.fc.weight"@, "mtp.fc.scales"@, "mtp.fc.biases"@, head.fc),
        map_at(k, files, names, Naming::Head, "mtp.layers.0.self_attn.q_proj.weight"@, "mtp.layers.0.self_attn.q_proj.scales"@, "mtp.layers.0.self_attn.q_proj.biases"@, head.layer.attention.q_proj),
        map_at(k, files, names, Naming::Head, "mtp.layers.0.self_attn.k_proj.weight"@, "mtp.layers.0.self_attn.k_proj.scales"@, "mtp.layers.0.self_attn.k_proj.biases"@, head.layer.attention.k_proj),
        map_at(k, files, names, Naming::Head, "mtp.layers.0.self_attn.o_proj.weight"@, "mtp.layers.0.self_attn.o_proj.scales"@, "mtp.layers.0.self_attn.o_proj.biases"@, head.layer.attention.o_proj),
        head.layer.attention.v_proj matches Some(v_proj) && map_at(k, files, names, Naming::Head, "mtp.layers.0.self_attn.v_proj.weight"@, "mtp.layers.0.self_attn.v_proj.scales"@, "mtp.layers.0.self_attn.v_proj.biases"@, v_proj),
        head.layer.attention.q_norm matches Some(norm) && norm_at(k, files, names, "mtp.layers.0.self_attn.q_norm.weight"@, (norm.shape@, norm.data@)),
        head.layer.attention.k_norm matches Some(norm) && norm_at(k, files, names, "mtp.layers.0.self_attn.k_norm.weight"@, (norm.shape@, norm.data@)),
        head.layer.mlp matches FeedForward::Dense(mlp) && map_at(k, files, names, Naming::Head, "mtp.layers.0.mlp.gate_proj.weight"@, "mtp.layers.0.mlp.gate_proj.scales"@, "mtp.layers.0.mlp.gate_proj.biases"@, mlp.gate_proj),
        head.layer.mlp matches FeedForward::Dense(mlp) && map_at(k, files, names, Naming::Head, "mtp.layers.0.mlp.up_proj.weight"@, "mtp.layers.0.mlp.up_proj.scales"@, "mtp.layers.0.mlp.up_proj.biases"@, mlp.up_proj),
        head.layer.mlp matches FeedForward::Dense(mlp) && map_at(k, files, names, Naming::Head, "mtp.layers.0.mlp.down_proj.weight"@, "mtp.layers.0.mlp.down_proj.scales"@, "mtp.layers.0.mlp.down_proj.biases"@, mlp.down_proj),
{
    lemma_names_fc();
    lemma_map(k, files, names, Naming::Head, "mtp.fc"@, Some(4), None, head.fc);
    lemma_names_q();
    lemma_map(k, files, names, Naming::Head, "mtp.layers.0.self_attn.q_proj"@, Some(4), None, head.layer.attention.q_proj);
    lemma_names_k();
    lemma_map(k, files, names, Naming::Head, "mtp.layers.0.self_attn.k_proj"@, Some(4), None, head.layer.attention.k_proj);
    lemma_names_v();
    lemma_map(k, files, names, Naming::Head, "mtp.layers.0.self_attn.v_proj"@, Some(4), None, head.layer.attention.v_proj->0);
    lemma_names_o();
    lemma_map(k, files, names, Naming::Head, "mtp.layers.0.self_attn.o_proj"@, Some(4), None, head.layer.attention.o_proj);
    lemma_names_gate();
    lemma_map(k, files, names, Naming::Head, "mtp.layers.0.mlp.gate_proj"@, Some(4), None, head.layer.mlp->Dense_0.gate_proj);
    lemma_names_up();
    lemma_map(k, files, names, Naming::Head, "mtp.layers.0.mlp.up_proj"@, Some(4), None, head.layer.mlp->Dense_0.up_proj);
    lemma_names_down();
    lemma_map(k, files, names, Naming::Head, "mtp.layers.0.mlp.down_proj"@, Some(4), None, head.layer.mlp->Dense_0.down_proj);
    lemma_norm(k, files, names, "mtp.pre_fc_norm_embedding.weight"@);
    lemma_norm(k, files, names, "mtp.pre_fc_norm_hidden.weight"@);
    lemma_norm(k, files, names, "mtp.layers.0.input_layernorm.weight"@);
    lemma_norm(k, files, names, "mtp.layers.0.post_attention_layernorm.weight"@);
    lemma_norm(k, files, names, "mtp.norm.weight"@);
    lemma_norm(k, files, names, "mtp.layers.0.self_attn.q_norm.weight"@);
    lemma_norm(k, files, names, "mtp.layers.0.self_attn.k_norm.weight"@);
    assert(attention_in(k, files, names) is Ok);
}

/// The output map of a draft head is read from its own names, and has as many columns as are
/// expected.
pub proof fn law_output_map_by_name<K: Kernel>(k: K, files: Files, names: Seq<String>, expected: usize, linear: Linear<K::Cell>)
    ensures
        output_in(k, files, names, expected) == Result::<LinearView<K::Cell>, Fault>::Ok(linear_view(linear)) ==> linear.in_dim == expected && map_at(
            k,
            files,
            names,
            Naming::Output,
            "lm_head.weight"@,
            "lm_head.scales"@,
            "lm_head.biases"@,
            linear,
        ),
{
    lemma_names_output();
    lemma_map(k, files, names, Naming::Output, "lm_head"@, None, Some(expected), linear);
}

/// A norm that is stored as equal numbers is kept as it is where they are one half or more,
/// and gets one added to each where they are less: they then say how far from one it is.
pub proof fn law_norm_stored_as_distance<K: Kernel>(k: K, value: K::Cell, n: nat, i: int)
    requires
        averages(k),
        0 <= i < n <= usize::MAX,
    ensures
        ({
            let stored = (seq![n as usize], repeated(value, n));
            let half = constant_of(k, Constant::Half);
            let weight = norm_weight(k, stored);
            &&& at_most_of(k, half, value) ==> weight == stored
            &&& at_most_of(k, value, half) && !at_most_of(k, half, value) ==> weight.1[i] == binary_of(k, Binary::Add, value, constant_of(k, Constant::One))
            &&& weight.0 == stored.0 && weight.1.len() == n
        }),
{
    let stored = (seq![n as usize], repeated(value, n));
    assert(mean_of(k, stored.1) == value) by {
        assert(sum_of(k, repeated(value, n)) == sum_of(k, stored.1));
    }
}

} // verus!
