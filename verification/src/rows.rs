//! Arithmetic on single rows.

use vstd::prelude::*;
use crate::config::RopeStyle;
use crate::kernel::{activate, activate_of, at_most, at_most_of, binary, binary_of, constant, constant_of, count, count_of, functional, unary, unary_of, Activation, Binary, Constant, Kernel, Unary};

verus! {

pub open spec fn plus<K: Kernel>(k: K, a: K::Cell, b: K::Cell) -> K::Cell {
    binary_of(k, Binary::Add, a, b)
}

pub open spec fn minus<K: Kernel>(k: K, a: K::Cell, b: K::Cell) -> K::Cell {
    binary_of(k, Binary::Sub, a, b)
}

pub open spec fn times<K: Kernel>(k: K, a: K::Cell, b: K::Cell) -> K::Cell {
    binary_of(k, Binary::Mul, a, b)
}

pub open spec fn over<K: Kernel>(k: K, a: K::Cell, b: K::Cell) -> K::Cell {
    binary_of(k, Binary::Div, a, b)
}

/// The inner product of two rows, summed from the front.
pub open spec fn dot_of<K: Kernel>(k: K, a: Seq<K::Cell>, b: Seq<K::Cell>) -> K::Cell
    decreases a.len(),
{
    if a.len() == 0 {
        constant_of(k, Constant::Zero)
    } else {
        plus(k, dot_of(k, a.drop_last(), b.drop_last()), times(k, a.last(), b.last()))
    }
}

/// The inner product of `n` cells of two rows.
pub fn dot_product<K: Kernel>(k: &K, a: &Vec<K::Cell>, a_start: usize, b: &Vec<K::Cell>, b_start: usize, n: usize) -> (sum: K::Cell)
    requires
        a_start + n <= a@.len(),
        b_start + n <= b@.len(),
    ensures
        functional(*k) ==> sum == dot_of(
            *k,
            a@.subrange(a_start as int, a_start + n),
            b@.subrange(b_start as int, b_start + n),
        ),
{
    let have_a: usize = a.len();
    let have_b: usize = b.len();
    let mut sum: K::Cell = constant(k, Constant::Zero);
    for i in 0..n
        invariant
            a_start + n <= have_a,
            b_start + n <= have_b,
            have_a == a@.len(),
            have_b == b@.len(),
            functional(*k) ==> sum == dot_of(
                *k,
                a@.subrange(a_start as int, a_start + i),
                b@.subrange(b_start as int, b_start + i),
            ),
    {
        proof {
            let wide_a = a@.subrange(a_start as int, a_start + i + 1);
            let wide_b = b@.subrange(b_start as int, b_start + i + 1);
            assert(wide_a.drop_last() =~= a@.subrange(a_start as int, a_start + i));
            assert(wide_b.drop_last() =~= b@.subrange(b_start as int, b_start + i));
        }
        let product: K::Cell = binary(k, Binary::Mul, a[a_start + i], b[b_start + i]);
        sum = binary(k, Binary::Add, sum, product);
    }
    sum
}

/// The largest of some numbers and minus infinity, compared from the front.
pub open spec fn max_of<K: Kernel>(k: K, values: Seq<K::Cell>) -> K::Cell
    decreases values.len(),
{
    if values.len() == 0 {
        constant_of(k, Constant::NegInfinity)
    } else {
        binary_of(k, Binary::Max, max_of(k, values.drop_last()), values.last())
    }
}

/// The sum of some numbers, from the front.
pub open spec fn sum_of<K: Kernel>(k: K, values: Seq<K::Cell>) -> K::Cell
    decreases values.len(),
{
    if values.len() == 0 {
        constant_of(k, Constant::Zero)
    } else {
        plus(k, sum_of(k, values.drop_last()), values.last())
    }
}

/// The exponentials of the scores, shifted by the largest.
pub open spec fn exponentials<K: Kernel>(k: K, scores: Seq<K::Cell>, temperature: K::Cell) -> Seq<K::Cell> {
    let divisor = binary_of(k, Binary::Max, temperature, constant_of(k, Constant::MinTemperature));
    Seq::new(
        scores.len(),
        |i: int| unary_of(k, Unary::Exp, over(k, minus(k, scores[i], max_of(k, scores)), divisor)),
    )
}

/// Scores turned into weights that sum to one; equal weights where the
/// exponentials vanish.
pub open spec fn softmax_of<K: Kernel>(k: K, scores: Seq<K::Cell>, temperature: K::Cell) -> Seq<K::Cell> {
    let raised = exponentials(k, scores, temperature);
    let total = sum_of(k, raised);
    if at_most_of(k, total, constant_of(k, Constant::Epsilon)) {
        Seq::new(
            scores.len(),
            |i: int| over(k, constant_of(k, Constant::One), count_of(k, scores.len() as usize)),
        )
    } else {
        Seq::new(scores.len(), |i: int| over(k, raised[i], total))
    }
}

/// Scores turned into weights.
pub fn softmax<K: Kernel>(k: &K, scores: &Vec<K::Cell>, temperature: K::Cell) -> (weights: Vec<K::Cell>)
    ensures
        weights@.len() == scores@.len(),
        functional(*k) ==> weights@ == softmax_of(*k, scores@, temperature),
{
    let n: usize = scores.len();
    let floor: K::Cell = constant(k, Constant::MinTemperature);
    let divisor: K::Cell = binary(k, Binary::Max, temperature, floor);
    let mut max: K::Cell = constant(k, Constant::NegInfinity);
    for i in 0..n
        invariant
            n == scores@.len(),
            functional(*k) ==> max == max_of(*k, scores@.subrange(0, i as int)),
    {
        assert(scores@.subrange(0, i + 1).drop_last() =~= scores@.subrange(0, i as int));
        max = binary(k, Binary::Max, max, scores[i]);
    }
    assert(scores@.subrange(0, n as int) =~= scores@);
    let mut raised: Vec<K::Cell> = Vec::new();
    let mut total: K::Cell = constant(k, Constant::Zero);
    let ghost expected = exponentials(*k, scores@, temperature);
    for i in 0..n
        invariant
            n == scores@.len(),
            raised@.len() == i,
            expected == exponentials(*k, scores@, temperature),
            functional(*k) ==> max == max_of(*k, scores@),
            functional(*k) ==> divisor == binary_of(
                *k,
                Binary::Max,
                temperature,
                constant_of(*k, Constant::MinTemperature),
            ),
            functional(*k) ==> raised@ == expected.subrange(0, i as int),
            functional(*k) ==> total == sum_of(*k, expected.subrange(0, i as int)),
    {
        assert(expected.subrange(0, i + 1).drop_last() =~= expected.subrange(0, i as int));
        let shifted: K::Cell = binary(k, Binary::Sub, scores[i], max);
        let scaled: K::Cell = binary(k, Binary::Div, shifted, divisor);
        let value: K::Cell = unary(k, Unary::Exp, scaled);
        total = binary(k, Binary::Add, total, value);
        raised.push(value);
        assert(functional(*k) ==> raised@ =~= expected.subrange(0, i + 1));
    }
    assert(expected.subrange(0, n as int) =~= expected);
    let mut weights: Vec<K::Cell> = Vec::new();
    let bound: K::Cell = constant(k, Constant::Epsilon);
    if at_most(k, total, bound) {
        let one: K::Cell = constant(k, Constant::One);
        let size: K::Cell = count(k, n);
        let uniform: K::Cell = binary(k, Binary::Div, one, size);
        for i in 0..n
            invariant
                weights@ == Seq::new(i as nat, |j: int| uniform),
        {
            weights.push(uniform);
            assert(weights@ =~= Seq::new((i + 1) as nat, |j: int| uniform));
        }
        assert(functional(*k) ==> weights@ =~= softmax_of(*k, scores@, temperature));
        return weights;
    }
    for i in 0..n
        invariant
            n == scores@.len(),
            n == raised@.len(),
            weights@.len() == i,
            expected == exponentials(*k, scores@, temperature),
            functional(*k) ==> raised@ == expected,
            functional(*k) ==> total == sum_of(*k, expected),
            functional(*k) ==> forall|j: int| 0 <= j < i ==> weights@[j] == over(*k, expected[j], total),
    {
        let weight: K::Cell = binary(k, Binary::Div, raised[i], total);
        weights.push(weight);
    }
    assert(functional(*k) ==> weights@ =~= softmax_of(*k, scores@, temperature));
    weights
}

/// One over the root mean square of a row.
pub open spec fn inverse_rms<K: Kernel>(k: K, row: Seq<K::Cell>, eps: K::Cell) -> K::Cell {
    let mean = over(k, dot_of(k, row, row), count_of(k, row.len() as usize));
    over(k, constant_of(k, Constant::One), unary_of(k, Unary::Sqrt, plus(k, mean, eps)))
}

/// A row divided by its root mean square, and weighted where there is a weight.
pub open spec fn rms_row<K: Kernel>(k: K, row: Seq<K::Cell>, weight: Option<Seq<K::Cell>>, eps: K::Cell) -> Seq<K::Cell> {
    let inverse = inverse_rms(k, row, eps);
    Seq::new(
        row.len(),
        |i: int|
            match weight {
                Some(weight) => times(k, times(k, row[i], inverse), weight[i]),
                None => times(k, row[i], inverse),
            },
    )
}

pub open spec fn weight_view<C>(weight: Option<&Vec<C>>) -> Option<Seq<C>> {
    match weight {
        Some(weight) => Some(weight@),
        None => None,
    }
}

/// Normalises `n` cells of a row.
pub fn normalise<K: Kernel>(k: &K, row: &Vec<K::Cell>, start: usize, n: usize, weight: Option<&Vec<K::Cell>>, eps: K::Cell) -> (out: Vec<K::Cell>)
    requires
        start + n <= row@.len(),
        weight matches Some(weight) ==> weight@.len() == n,
    ensures
        out@.len() == n,
        functional(*k) ==> out@ == rms_row(
            *k,
            row@.subrange(start as int, start + n),
            weight_view(weight),
            eps,
        ),
{
    let have: usize = row.len();
    let square: K::Cell = dot_product(k, row, start, row, start, n);
    let size: K::Cell = count(k, n);
    let mean: K::Cell = binary(k, Binary::Div, square, size);
    let shifted: K::Cell = binary(k, Binary::Add, mean, eps);
    let root: K::Cell = unary(k, Unary::Sqrt, shifted);
    let one: K::Cell = constant(k, Constant::One);
    let inverse: K::Cell = binary(k, Binary::Div, one, root);
    let ghost part = row@.subrange(start as int, start + n);
    let ghost expected = rms_row(*k, part, weight_view(weight), eps);
    let mut out: Vec<K::Cell> = Vec::new();
    for i in 0..n
        invariant
            have == row@.len(),
            start + n <= have,
            out@.len() == i,
            weight matches Some(weight) ==> weight@.len() == n,
            part == row@.subrange(start as int, start + n),
            expected == rms_row(*k, part, weight_view(weight), eps),
            functional(*k) ==> inverse == inverse_rms(*k, part, eps),
            functional(*k) ==> forall|j: int| 0 <= j < i ==> out@[j] == expected[j],
    {
        let scaled: K::Cell = binary(k, Binary::Mul, row[start + i], inverse);
        let value: K::Cell = match weight {
            Some(weight) => binary(k, Binary::Mul, scaled, weight[i]),
            None => scaled,
        };
        out.push(value);
    }
    assert(functional(*k) ==> out@ =~= expected);
    out
}

/// Base, frequency size and position scale of a rotation.
#[derive(Clone, Copy, Debug)]
pub struct RopeParams<C> {
    pub theta: C,
    pub frequency_dim: usize,
    pub position_scale: C,
}

/// Cosine and sine by which a pair is turned at a position.
pub open spec fn rotation_of<K: Kernel>(k: K, position: int, pair: int, rope: RopeParams<K::Cell>) -> (K::Cell, K::Cell) {
    let scaled = times(k, count_of(k, position as usize), rope.position_scale);
    let exponent = over(k, count_of(k, (2 * pair) as usize), count_of(k, rope.frequency_dim));
    let angle = over(k, scaled, binary_of(k, Binary::Pow, rope.theta, exponent));
    (unary_of(k, Unary::Cos, angle), unary_of(k, Unary::Sin, angle))
}

/// The rotations of all pairs of a head at a position.
pub open spec fn rotations_of<K: Kernel>(k: K, position: int, rope_dims: int, rope: RopeParams<K::Cell>) -> Seq<(K::Cell, K::Cell)> {
    Seq::new((rope_dims / 2) as nat, |pair: int| rotation_of(k, position, pair, rope))
}

/// The rotations of all pairs of a head at a position.
pub fn rope_rotations<K: Kernel>(k: &K, position: usize, rope_dims: usize, rope: RopeParams<K::Cell>) -> (rotations: Vec<(K::Cell, K::Cell)>)
    ensures
        rotations@.len() == rope_dims / 2,
        functional(*k) ==> rotations@ == rotations_of(*k, position as int, rope_dims as int, rope),
{
    let pairs: usize = rope_dims / 2;
    let place: K::Cell = count(k, position);
    let scaled: K::Cell = binary(k, Binary::Mul, place, rope.position_scale);
    let size: K::Cell = count(k, rope.frequency_dim);
    let ghost expected = rotations_of(*k, position as int, rope_dims as int, rope);
    let mut rotations: Vec<(K::Cell, K::Cell)> = Vec::new();
    for pair in 0..pairs
        invariant
            pairs == rope_dims / 2,
            rotations@.len() == pair,
            expected == rotations_of(*k, position as int, rope_dims as int, rope),
            functional(*k) ==> scaled == times(*k, count_of(*k, position), rope.position_scale),
            functional(*k) ==> size == count_of(*k, rope.frequency_dim),
            functional(*k) ==> forall|j: int| 0 <= j < pair ==> rotations@[j] == expected[j],
    {
        let twice: K::Cell = count(k, 2 * pair);
        let exponent: K::Cell = binary(k, Binary::Div, twice, size);
        let base: K::Cell = binary(k, Binary::Pow, rope.theta, exponent);
        let angle: K::Cell = binary(k, Binary::Div, scaled, base);
        let cos: K::Cell = unary(k, Unary::Cos, angle);
        let sin: K::Cell = unary(k, Unary::Sin, angle);
        rotations.push((cos, sin));
    }
    assert(functional(*k) ==> rotations@ =~= expected);
    rotations
}

/// The first coordinate of a pair, turned by an angle with this cosine and sine.
pub open spec fn first_of_pair<K: Kernel>(k: K, first: K::Cell, second: K::Cell, turn: (K::Cell, K::Cell)) -> K::Cell {
    minus(k, times(k, first, turn.0), times(k, second, turn.1))
}

/// The second coordinate of a pair, turned by an angle with this cosine and sine.
pub open spec fn second_of_pair<K: Kernel>(k: K, first: K::Cell, second: K::Cell, turn: (K::Cell, K::Cell)) -> K::Cell {
    plus(k, times(k, first, turn.1), times(k, second, turn.0))
}

/// A head with its first `2 * turns.len()` coordinates turned pair by pair.
pub open spec fn turned<K: Kernel>(k: K, head: Seq<K::Cell>, turns: Seq<(K::Cell, K::Cell)>, style: RopeStyle) -> Seq<K::Cell> {
    let pairs = turns.len() as int;
    Seq::new(
        head.len(),
        |c: int|
            match style {
                RopeStyle::Interleaved => if c >= 2 * pairs {
                    head[c]
                } else if c % 2 == 0 {
                    first_of_pair(k, head[c], head[c + 1], turns[c / 2])
                } else {
                    second_of_pair(k, head[c - 1], head[c], turns[c / 2])
                },
                RopeStyle::Halves => if c >= 2 * pairs {
                    head[c]
                } else if c < pairs {
                    first_of_pair(k, head[c], head[c + pairs], turns[c])
                } else {
                    second_of_pair(k, head[c - pairs], head[c], turns[c - pairs])
                },
            },
    )
}

/// Turns one head.
pub fn turn_head<K: Kernel>(k: &K, row: &Vec<K::Cell>, start: usize, n: usize, turns: &Vec<(K::Cell, K::Cell)>, style: RopeStyle) -> (out: Vec<K::Cell>)
    requires
        start + n <= row@.len(),
        2 * turns@.len() <= n,
    ensures
        out@.len() == n,
        functional(*k) ==> out@ == turned(*k, row@.subrange(start as int, start + n), turns@, style),
{
    let have: usize = row.len();
    let pairs: usize = turns.len();
    let ghost head = row@.subrange(start as int, start + n);
    let ghost expected = turned(*k, head, turns@, style);
    let mut out: Vec<K::Cell> = Vec::new();
    for c in 0..n
        invariant
            have == row@.len(),
            start + n <= have,
            pairs == turns@.len(),
            2 * pairs <= n,
            out@.len() == c,
            head == row@.subrange(start as int, start + n),
            expected == turned(*k, head, turns@, style),
            functional(*k) ==> forall|j: int| 0 <= j < c ==> out@[j] == expected[j],
    {
        let value: K::Cell = if c >= 2 * pairs {
            row[start + c]
        } else {
            let (first_at, second_at, pair, leads): (usize, usize, usize, bool) = match style {
                RopeStyle::Interleaved => if c % 2 == 0 {
                    (c, c + 1, c / 2, true)
                } else {
                    (c - 1, c, c / 2, false)
                },
                RopeStyle::Halves => if c < pairs {
                    (c, c + pairs, c, true)
                } else {
                    (c - pairs, c, c - pairs, false)
                },
            };
            let first: K::Cell = row[start + first_at];
            let second: K::Cell = row[start + second_at];
            let (cos, sin) = turns[pair];
            if leads {
                let left: K::Cell = binary(k, Binary::Mul, first, cos);
                let right: K::Cell = binary(k, Binary::Mul, second, sin);
                binary(k, Binary::Sub, left, right)
            } else {
                let left: K::Cell = binary(k, Binary::Mul, first, sin);
                let right: K::Cell = binary(k, Binary::Mul, second, cos);
                binary(k, Binary::Add, left, right)
            }
        };
        out.push(value);
    }
    assert(functional(*k) ==> out@ =~= expected);
    out
}

/// Two rows added cell by cell.
pub open spec fn sum_rows<K: Kernel>(k: K, a: Seq<K::Cell>, b: Seq<K::Cell>) -> Seq<K::Cell> {
    Seq::new(a.len(), |i: int| plus(k, a[i], b[i]))
}

/// Combines two rows cell by cell.
pub fn combine_rows<K: Kernel>(k: &K, op: Binary, a: &Vec<K::Cell>, b: &Vec<K::Cell>) -> (out: Vec<K::Cell>)
    requires
        a@.len() == b@.len(),
    ensures
        out@.len() == a@.len(),
        functional(*k) ==> out@ == Seq::new(a@.len(), |i: int| binary_of(*k, op, a@[i], b@[i])),
{
    let mut out: Vec<K::Cell> = Vec::new();
    for i in 0..a.len()
        invariant
            a@.len() == b@.len(),
            out@.len() == i,
            functional(*k) ==> forall|j: int| 0 <= j < i ==> out@[j] == binary_of(*k, op, a@[j], b@[j]),
    {
        let value: K::Cell = binary(k, op, a[i], b[i]);
        out.push(value);
    }
    assert(functional(*k) ==> out@ =~= Seq::new(a@.len(), |i: int| binary_of(*k, op, a@[i], b@[i])));
    out
}

/// A row times a number.
pub open spec fn scaled_row<K: Kernel>(k: K, row: Seq<K::Cell>, by: K::Cell) -> Seq<K::Cell> {
    Seq::new(row.len(), |i: int| times(k, row[i], by))
}

pub fn scale_row<K: Kernel>(k: &K, row: &Vec<K::Cell>, by: K::Cell) -> (out: Vec<K::Cell>)
    ensures
        out@.len() == row@.len(),
        functional(*k) ==> out@ == scaled_row(*k, row@, by),
{
    let mut out: Vec<K::Cell> = Vec::new();
    for i in 0..row.len()
        invariant
            out@.len() == i,
            functional(*k) ==> forall|j: int| 0 <= j < i ==> out@[j] == times(*k, row@[j], by),
    {
        let value: K::Cell = binary(k, Binary::Mul, row[i], by);
        out.push(value);
    }
    assert(functional(*k) ==> out@ =~= scaled_row(*k, row@, by));
    out
}

/// The logistic function.
pub open spec fn sigmoid_of<K: Kernel>(k: K, value: K::Cell) -> K::Cell {
    over(
        k,
        constant_of(k, Constant::One),
        plus(
            k,
            constant_of(k, Constant::One),
            unary_of(k, Unary::Exp, unary_of(k, Unary::Negate, value)),
        ),
    )
}

pub fn sigmoid_scalar<K: Kernel>(k: &K, value: K::Cell) -> (out: K::Cell)
    ensures
        functional(*k) ==> out == sigmoid_of(*k, value),
{
    let negated: K::Cell = unary(k, Unary::Negate, value);
    let raised: K::Cell = unary(k, Unary::Exp, negated);
    let one: K::Cell = constant(k, Constant::One);
    let bottom: K::Cell = binary(k, Binary::Add, one, raised);
    binary(k, Binary::Div, one, bottom)
}

/// A row gated by the logistic function of another.
pub open spec fn gated_row<K: Kernel>(k: K, row: Seq<K::Cell>, gate: Seq<K::Cell>) -> Seq<K::Cell> {
    Seq::new(row.len(), |i: int| times(k, row[i], sigmoid_of(k, gate[i])))
}

pub fn gate_row<K: Kernel>(k: &K, row: &Vec<K::Cell>, gate: &Vec<K::Cell>) -> (out: Vec<K::Cell>)
    requires
        row@.len() == gate@.len(),
    ensures
        out@.len() == row@.len(),
        functional(*k) ==> out@ == gated_row(*k, row@, gate@),
{
    let mut out: Vec<K::Cell> = Vec::new();
    for i in 0..row.len()
        invariant
            row@.len() == gate@.len(),
            out@.len() == i,
            functional(*k) ==> forall|j: int| 0 <= j < i ==> out@[j] == times(*k, row@[j], sigmoid_of(*k, gate@[j])),
    {
        let opening: K::Cell = sigmoid_scalar(k, gate[i]);
        let value: K::Cell = binary(k, Binary::Mul, row[i], opening);
        out.push(value);
    }
    assert(functional(*k) ==> out@ =~= gated_row(*k, row@, gate@));
    out
}

/// A row passed through an activation, times another row.
pub open spec fn activated_product<K: Kernel>(k: K, activation: Activation, gate: Seq<K::Cell>, up: Seq<K::Cell>) -> Seq<K::Cell> {
    Seq::new(gate.len(), |i: int| times(k, activate_of(k, activation, gate[i]), up[i]))
}

pub fn activate_product<K: Kernel>(k: &K, activation: Activation, gate: &Vec<K::Cell>, up: &Vec<K::Cell>) -> (out: Vec<K::Cell>)
    requires
        gate@.len() == up@.len(),
    ensures
        out@.len() == gate@.len(),
        functional(*k) ==> out@ == activated_product(*k, activation, gate@, up@),
{
    let mut out: Vec<K::Cell> = Vec::new();
    for i in 0..gate.len()
        invariant
            gate@.len() == up@.len(),
            out@.len() == i,
            functional(*k) ==> forall|j: int| 0 <= j < i ==> out@[j] == times(
                *k,
                activate_of(*k, activation, gate@[j]),
                up@[j],
            ),
    {
        let active: K::Cell = activate(k, activation, gate[i]);
        let value: K::Cell = binary(k, Binary::Mul, active, up[i]);
        out.push(value);
    }
    assert(functional(*k) ==> out@ =~= activated_product(*k, activation, gate@, up@));
    out
}

} // verus!
