//! What the decoder's formulas come to for arithmetic in which zero, one, products and
//! quotients behave as they should.

use vstd::prelude::*;
use crate::adaptive::{observed, AdaptiveDepthController};
use crate::attend::{head_context, mixed, score_of, weights_of, Scale};
use crate::kernel::{activate_of, at_most_of, binary_of, constant_of, count_of, lookup_of, unary_of, Activation, Binary, Constant, Kernel, Unary};
use crate::linear::linear_row;
use crate::model::{embed_row, DecoderModel};
use crate::weights::Linear;
use crate::rows::{activated_product, dot_of, exponentials, first_of_pair, gated_row, max_of, rms_row, second_of_pair, softmax_of, sum_of};
use crate::sampling::{finalized, logits_of};

verus! {

/// Zero and one are neutral, a number less itself is zero, and over itself is one.
pub open spec fn neutral<K: Kernel>(k: K) -> bool {
    let zero = constant_of(k, Constant::Zero);
    let one = constant_of(k, Constant::One);
    &&& forall|x: K::Cell| #[trigger] binary_of(k, Binary::Add, x, zero) == x
    &&& forall|x: K::Cell| #[trigger] binary_of(k, Binary::Add, zero, x) == x
    &&& forall|x: K::Cell| #[trigger] binary_of(k, Binary::Sub, x, zero) == x
    &&& forall|x: K::Cell| #[trigger] binary_of(k, Binary::Sub, x, x) == zero
    &&& forall|x: K::Cell| #[trigger] binary_of(k, Binary::Mul, x, one) == x
    &&& forall|x: K::Cell| #[trigger] binary_of(k, Binary::Mul, one, x) == x
    &&& forall|x: K::Cell| #[trigger] binary_of(k, Binary::Mul, x, zero) == zero
    &&& forall|x: K::Cell| #[trigger] binary_of(k, Binary::Mul, zero, x) == zero
    &&& forall|x: K::Cell| #[trigger] binary_of(k, Binary::Div, x, one) == x
    &&& zero != one
}

/// A cap counts: it is above zero.
pub open spec fn counts<K: Kernel>(k: K, cap: K::Cell) -> bool {
    at_most_of(k, constant_of(k, Constant::Zero), cap) && !at_most_of(k, cap, constant_of(k, Constant::Zero))
}

/// Logits that are small against a cap, so that the tangent leaves their share of the cap as
/// it is, stay what they are, where a product undoes the quotient.
pub proof fn law_small_logits_stay<K: Kernel>(m: DecoderModel<K>, row: Seq<K::Cell>, cap: K::Cell)
    requires
        m.config.final_logit_softcapping == Some(cap),
        counts(m.kernel, cap),
        forall|i: int| 0 <= i < row.len() ==> {
            let share = binary_of(m.kernel, Binary::Div, #[trigger] row[i], cap);
            unary_of(m.kernel, Unary::Tanh, share) == share && binary_of(m.kernel, Binary::Mul, share, cap) == row[i]
        },
    ensures
        finalized(m, row) == row,
{
    assert(finalized(m, row) =~= row);
}

/// In shares of the cap, a logit becomes the tangent of what it was, where a quotient undoes
/// the product.
pub proof fn law_capped_share<K: Kernel>(m: DecoderModel<K>, row: Seq<K::Cell>, cap: K::Cell, i: int)
    requires
        m.config.final_logit_softcapping == Some(cap),
        counts(m.kernel, cap),
        forall|x: K::Cell| binary_of(m.kernel, Binary::Div, #[trigger] binary_of(m.kernel, Binary::Mul, x, cap), cap) == x,
        0 <= i < row.len(),
    ensures
        finalized(m, row).len() == row.len(),
        binary_of(m.kernel, Binary::Div, finalized(m, row)[i], cap) == unary_of(m.kernel, Unary::Tanh, binary_of(m.kernel, Binary::Div, row[i], cap)),
{
}

/// Without a cap that counts the logits are left as they are.
pub proof fn law_no_cap<K: Kernel>(m: DecoderModel<K>, row: Seq<K::Cell>)
    requires
        m.config.final_logit_softcapping matches Some(cap) ==> !counts(m.kernel, cap),
    ensures
        finalized(m, row) == row,
{
}

/// So many equal numbers.
pub open spec fn repeated<C>(value: C, n: nat) -> Seq<C> {
    Seq::new(n, |i: int| value)
}

/// The mean of equal numbers is that number.
pub open spec fn averages<K: Kernel>(k: K) -> bool {
    forall|value: K::Cell, n: nat|
        0 < n <= usize::MAX ==> binary_of(k, Binary::Div, #[trigger] sum_of(k, repeated(value, n)), count_of(k, n as usize)) == value
}

proof fn lemma_equal_squares<K: Kernel>(k: K, value: K::Cell, n: nat)
    ensures
        dot_of(k, repeated(value, n), repeated(value, n)) == sum_of(k, repeated(binary_of(k, Binary::Mul, value, value), n)),
    decreases n,
{
    if n > 0 {
        let less = (n - 1) as nat;
        lemma_equal_squares(k, value, less);
        assert(repeated(value, n).drop_last() =~= repeated(value, less));
        assert(repeated(binary_of(k, Binary::Mul, value, value), n).drop_last() =~= repeated(binary_of(k, Binary::Mul, value, value), less));
    }
}

/// A row of equal numbers is normed to ones, however long it is: its root mean square is
/// that number. A weight then takes the place of the ones.
pub proof fn law_equal_numbers_normed<K: Kernel>(k: K, value: K::Cell, n: nat, weight: Seq<K::Cell>, i: int)
    requires
        neutral(k),
        averages(k),
        unary_of(k, Unary::Sqrt, binary_of(k, Binary::Mul, value, value)) == value,
        binary_of(k, Binary::Mul, value, binary_of(k, Binary::Div, constant_of(k, Constant::One), value)) == constant_of(k, Constant::One),
        0 <= i < n <= usize::MAX,
        weight.len() == n,
    ensures
        rms_row(k, repeated(value, n), None, constant_of(k, Constant::Zero))[i] == constant_of(k, Constant::One),
        rms_row(k, repeated(value, n), Some(weight), constant_of(k, Constant::Zero))[i] == weight[i],
{
    let row = repeated(value, n);
    let square = binary_of(k, Binary::Mul, value, value);
    lemma_equal_squares(k, value, n);
    let sum = sum_of(k, repeated(square, n));
    assert(dot_of(k, row, row) == sum);
    assert(binary_of(k, Binary::Div, sum, count_of(k, n as usize)) == square);
}

/// A weight of ones changes nothing, and a weight of zeros leaves zeros.
pub proof fn law_weight_of_a_norm<K: Kernel>(k: K, row: Seq<K::Cell>, weight: Seq<K::Cell>, eps: K::Cell)
    requires
        neutral(k),
        weight.len() == row.len(),
    ensures
        (forall|i: int| 0 <= i < weight.len() ==> #[trigger] weight[i] == constant_of(k, Constant::One)) ==> rms_row(k, row, Some(weight), eps) == rms_row(
            k,
            row,
            None,
            eps,
        ),
        forall|i: int|
            0 <= i < weight.len() && weight[i] == constant_of(k, Constant::Zero) ==> #[trigger] rms_row(k, row, Some(weight), eps)[i] == constant_of(
                k,
                Constant::Zero,
            ),
{
    if forall|i: int| 0 <= i < weight.len() ==> #[trigger] weight[i] == constant_of(k, Constant::One) {
        assert(rms_row(k, row, Some(weight), eps) =~= rms_row(k, row, None, eps));
    }
}

/// The small number that a norm adds goes to the mean square, not to the numbers: a row of
/// zeros stays one.
pub proof fn law_zeros_stay<K: Kernel>(k: K, n: nat, weight: Option<Seq<K::Cell>>, eps: K::Cell, i: int)
    requires
        neutral(k),
        0 <= i < n,
        weight matches Some(weight) ==> weight.len() == n,
    ensures
        rms_row(k, repeated(constant_of(k, Constant::Zero), n), weight, eps)[i] == constant_of(k, Constant::Zero),
{
}

/// Where the exponential of the number that holds it back vanishes, a number goes through.
pub proof fn law_open_gate<K: Kernel>(k: K, row: Seq<K::Cell>, gate: Seq<K::Cell>, i: int)
    requires
        neutral(k),
        0 <= i < row.len(),
        gate.len() == row.len(),
    ensures
        gated_row(k, row, gate).len() == row.len(),
        unary_of(k, Unary::Exp, unary_of(k, Unary::Negate, gate[i])) == constant_of(k, Constant::Zero) ==> gated_row(k, row, gate)[i] == row[i],
        row[i] == constant_of(k, Constant::Zero) ==> gated_row(k, row, gate)[i] == constant_of(k, Constant::Zero),
{
}

/// The weight that one position has alone is one.
pub proof fn law_one_score<K: Kernel>(k: K, score: K::Cell)
    requires
        neutral(k),
        binary_of(k, Binary::Max, constant_of(k, Constant::NegInfinity), score) == score,
        forall|x: K::Cell| #[trigger] binary_of(k, Binary::Div, constant_of(k, Constant::Zero), x) == constant_of(k, Constant::Zero),
        unary_of(k, Unary::Exp, constant_of(k, Constant::Zero)) == constant_of(k, Constant::One),
        !at_most_of(k, constant_of(k, Constant::One), constant_of(k, Constant::Epsilon)),
    ensures
        forall|temperature: K::Cell| #[trigger] softmax_of(k, seq![score], temperature) == seq![constant_of(k, Constant::One)],
{
    let scores = seq![score];
    assert(scores.drop_last() =~= Seq::empty());
    assert(max_of(k, Seq::<K::Cell>::empty()) == constant_of(k, Constant::NegInfinity));
    assert(max_of(k, scores) == score);
    assert forall|temperature: K::Cell| #[trigger] softmax_of(k, seq![score], temperature) == seq![constant_of(k, Constant::One)] by {
        let raised = exponentials(k, scores, temperature);
        assert(raised =~= seq![constant_of(k, Constant::One)]);
        assert(raised.drop_last() =~= Seq::empty());
        assert(sum_of(k, Seq::<K::Cell>::empty()) == constant_of(k, Constant::Zero));
        assert(sum_of(k, raised) == constant_of(k, Constant::One));
        assert(softmax_of(k, scores, temperature) =~= seq![constant_of(k, Constant::One)]);
    }
}

/// A query head that sees one position only has that position's values of its key head as
/// its context, whatever the query and the key are.
pub proof fn law_one_position_is_its_value<K: Kernel>(
    k: K,
    q_head: Seq<K::Cell>,
    keys: Seq<K::Cell>,
    values: Seq<K::Cell>,
    row_len: int,
    head: int,
    start: int,
    scale: Scale<K::Cell>,
    c: int,
)
    requires
        neutral(k),
        forall|x: K::Cell| #[trigger] binary_of(k, Binary::Max, constant_of(k, Constant::NegInfinity), x) == x,
        forall|x: K::Cell| #[trigger] binary_of(k, Binary::Div, constant_of(k, Constant::Zero), x) == constant_of(k, Constant::Zero),
        unary_of(k, Unary::Exp, constant_of(k, Constant::Zero)) == constant_of(k, Constant::One),
        !at_most_of(k, constant_of(k, Constant::One), constant_of(k, Constant::Epsilon)),
        0 <= c < q_head.len(),
    ensures
        head_context(k, q_head, keys, values, row_len, head, start, start + 1, scale)[c] == values[start * row_len + (head * q_head.len() + c)],
{
    let score = score_of(k, q_head, keys, start, row_len, head, scale);
    law_one_score(k, score);
    let one = constant_of(k, Constant::One);
    let weights = weights_of(k, q_head, keys, row_len, head, start, start + 1, scale);
    assert(Seq::new(1, |i: int| score_of(k, q_head, keys, start + i, row_len, head, scale)) =~= seq![score]);
    assert(weights == seq![one]);
    let at = head * q_head.len() + c;
    assert(weights.drop_last() =~= Seq::empty());
    assert(mixed(k, Seq::<K::Cell>::empty(), values, start, row_len, at) == constant_of(k, Constant::Zero));
    assert(mixed(k, weights, values, start, row_len, at) == values[start * row_len + at]);
}

/// A feed-forward block multiplies its up row by what the activation makes of its other row:
/// a number that the activation takes to one lets the up row through, and one that it takes
/// to zero shuts it.
pub proof fn law_gate_of_a_block<K: Kernel>(k: K, activation: Activation, gate: Seq<K::Cell>, up: Seq<K::Cell>, i: int)
    requires
        neutral(k),
        0 <= i < gate.len(),
        gate.len() == up.len(),
    ensures
        activate_of(k, activation, gate[i]) == constant_of(k, Constant::One) ==> activated_product(k, activation, gate, up)[i] == up[i],
        activate_of(k, activation, gate[i]) == constant_of(k, Constant::Zero) ==> activated_product(k, activation, gate, up)[i] == constant_of(
            k,
            Constant::Zero,
        ),
        up[i] == constant_of(k, Constant::One) ==> activated_product(k, activation, gate, up)[i] == activate_of(k, activation, gate[i]),
{
}

/// A weight of one puts what the newest deep step showed in the average's place, and a
/// weight of zero leaves the average as it is.
pub proof fn law_weight_of_the_newest<K: Kernel>(k: K, c: AdaptiveDepthController<K::Cell>, depth: int, held: int)
    requires
        neutral(k),
        depth >= 2,
    ensures
        c.alpha == constant_of(k, Constant::One) && held >= 2 ==> observed(k, c, depth, held).ema_deep == constant_of(k, Constant::One),
        c.alpha == constant_of(k, Constant::One) && held < 2 ==> observed(k, c, depth, held).ema_deep == constant_of(k, Constant::Zero),
        c.alpha == constant_of(k, Constant::Zero) ==> observed(k, c, depth, held).ema_deep == c.ema_deep,
{
}

/// A turn by nothing changes nothing, and a turn goes from the first coordinate to the
/// second: one on the first axis becomes the cosine and the sine.
pub proof fn law_turns<K: Kernel>(k: K, first: K::Cell, second: K::Cell, cos: K::Cell, sin: K::Cell)
    requires
        neutral(k),
    ensures
        ({
            let (zero, one) = (constant_of(k, Constant::Zero), constant_of(k, Constant::One));
            &&& first_of_pair(k, first, second, (one, zero)) == first && second_of_pair(k, first, second, (one, zero)) == second
            &&& first_of_pair(k, one, zero, (cos, sin)) == cos && second_of_pair(k, one, zero, (cos, sin)) == sin
            &&& second_of_pair(k, zero, one, (cos, sin)) == cos
            &&& first_of_pair(k, zero, one, (cos, sin)) == binary_of(k, Binary::Sub, zero, sin)
        }),
{
}

/// Without a scale, or with a scale of one, a token starts from its row of the table.
pub proof fn law_unscaled_embedding<K: Kernel>(m: DecoderModel<K>, token: usize)
    requires
        neutral(m.kernel),
        m.config.embed_scale matches Some(scale) ==> scale == constant_of(m.kernel, Constant::One),
    ensures
        embed_row(m, token) matches Some(row) ==> row == lookup_of(m.kernel, m.embed_tokens, token),
{
    if embed_row(m, token) is Some {
        assert(embed_row(m, token)->0 =~= lookup_of(m.kernel, m.embed_tokens, token));
    }
}

/// The logits of a state are what an output map makes of it, under the cap: with a cap that
/// counts they are in shares of it the tangents of what they are without one.
pub proof fn law_logits_of_a_state<K: Kernel>(m: DecoderModel<K>, free: DecoderModel<K>, head: Linear<K::Cell>, state: Seq<K::Cell>, cap: K::Cell, i: int)
    requires
        m.config.final_logit_softcapping == Some(cap),
        free.kernel == m.kernel,
        free.config.final_logit_softcapping is None,
        counts(m.kernel, cap),
        forall|x: K::Cell| binary_of(m.kernel, Binary::Div, #[trigger] binary_of(m.kernel, Binary::Mul, x, cap), cap) == x,
        0 <= i < head.out_dim,
        head.wf(),
    ensures
        match (logits_of(m, head, state), logits_of(free, head, state)) {
            (Some(logits), Some(raw)) => logits.len() == raw.len() && raw == linear_row(m.kernel, head, state)->0 && binary_of(
                m.kernel,
                Binary::Div,
                logits[i],
                cap,
            ) == unary_of(m.kernel, Unary::Tanh, binary_of(m.kernel, Binary::Div, raw[i], cap)),
            (None, None) => linear_row(m.kernel, head, state) is None,
            _ => false,
        },
{
}

} // verus!
