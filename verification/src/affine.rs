//! The layout of packed weights.

use vstd::prelude::*;
use crate::error::{Fault, InferError};

verus! {

/// Bits of one packed word.
pub const WORD_BITS: usize = 32;

/// Bits of one value: as given, or what the packed words of a row leave for each of
/// the columns expected.
pub open spec fn bits_of(packed_bits: int, fixed: Option<usize>, columns: Option<usize>) -> Option<int> {
    match fixed {
        Some(bits) => Some(bits as int),
        None => match columns {
            Some(columns) => if columns > 0 && packed_bits % columns as int == 0 {
                Some(packed_bits / columns as int)
            } else {
                None
            },
            None => None,
        },
    }
}

/// Columns of a row: as expected, or what its packed words hold.
pub open spec fn columns_of(packed_bits: int, bits: int, columns: Option<usize>) -> Option<int> {
    match columns {
        Some(columns) => Some(columns as int),
        None => if packed_bits % bits == 0 {
            Some(packed_bits / bits)
        } else {
            None
        },
    }
}

/// Bits of one value, and values of one group, of a packed weight with a scale for
/// each group.
pub open spec fn layout_of(packed: Seq<usize>, scales: Seq<usize>, fixed: Option<usize>, columns: Option<usize>) -> Option<(int, int)> {
    if packed.len() != 2 || scales.len() != 2 || packed[0] != scales[0] || scales[1] == 0 || packed[1] * WORD_BITS > usize::MAX {
        None
    } else {
        let packed_bits = packed[1] * WORD_BITS;
        let groups = scales[1] as int;
        match bits_of(packed_bits, fixed, columns) {
            Some(bits) => if bits == 0 || bits > 16 {
                None
            } else {
                match columns_of(packed_bits, bits, columns) {
                    Some(count) => if count == 0 || count % groups != 0 {
                        None
                    } else {
                        Some((bits, count / groups))
                    },
                    None => None,
                }
            },
            None => None,
        }
    }
}

/// Why shapes are refused as those of a packed weight.
pub open spec fn layout_fault(packed: Seq<usize>, scales: Seq<usize>, fixed: Option<usize>, columns: Option<usize>) -> Fault {
    if packed.len() != 2 || scales.len() != 2 || packed[0] != scales[0] {
        Fault::Dimension
    } else if scales[1] == 0 || packed[1] * WORD_BITS > usize::MAX {
        Fault::Shape
    } else {
        match bits_of(packed[1] * WORD_BITS, fixed, columns) {
            None => if columns is Some {
                Fault::Dimension
            } else {
                Fault::Config
            },
            Some(bits) => if bits == 0 || bits > 16 {
                Fault::Config
            } else if columns_of(packed[1] * WORD_BITS, bits, columns) is None {
                Fault::Shape
            } else {
                Fault::Dimension
            },
        }
    }
}

/// Bits of one value, and values of one group, of a packed weight. Refused where the
/// two shapes are not those of such a weight, or the sizes do not come out even.
pub fn infer_mtp_affine_layout(packed_shape: &Vec<usize>, scales_shape: &Vec<usize>, fixed_bits: Option<usize>, expected_cols: Option<usize>) -> (out: Result<(usize, usize), InferError>)
    ensures
        match out {
            Ok(out) => layout_of(packed_shape@, scales_shape@, fixed_bits, expected_cols) == Some((out.0 as int, out.1 as int)),
            Err(error) => layout_of(packed_shape@, scales_shape@, fixed_bits, expected_cols) is None && error.fault() == layout_fault(
                packed_shape@,
                scales_shape@,
                fixed_bits,
                expected_cols,
            ),
        },
{
    if packed_shape.len() != 2 {
        return Err(InferError::Dimension("packed weight is not a matrix"));
    }
    if scales_shape.len() != 2 {
        return Err(InferError::Dimension("scales are not a matrix"));
    }
    let rows: usize = packed_shape[0];
    let packed_cols: usize = packed_shape[1];
    let groups: usize = scales_shape[1];
    if scales_shape[0] != rows {
        return Err(InferError::Dimension("packed weight and scales differ in rows"));
    }
    if groups == 0 {
        return Err(InferError::Shape("scales without groups"));
    }
    let packed_bits: usize = match packed_cols.checked_mul(WORD_BITS) {
        Some(packed_bits) => packed_bits,
        None => {
            return Err(InferError::Shape("packed weight too wide"));
        },
    };
    let bits: usize = match fixed_bits {
        Some(bits) => bits,
        None => match expected_cols {
            Some(cols) => if cols > 0 && packed_bits % cols == 0 {
                packed_bits / cols
            } else {
                return Err(InferError::Dimension("packed row does not divide into the columns"));
            },
            None => {
                return Err(InferError::Config("neither bits nor columns known"));
            },
        },
    };
    if bits == 0 || bits > 16 {
        return Err(InferError::Config("number of bits out of range"));
    }
    let cols: usize = match expected_cols {
        Some(cols) => cols,
        None => if packed_bits % bits == 0 {
            packed_bits / bits
        } else {
            return Err(InferError::Shape("packed row does not divide into values"));
        },
    };
    if cols == 0 || cols % groups != 0 {
        return Err(InferError::Dimension("columns do not divide into the groups"));
    }
    Ok((bits, cols / groups))
}

/// The groups of a row fill it.
pub proof fn law_groups_fill_the_row(packed: Seq<usize>, scales: Seq<usize>, fixed: Option<usize>, columns: Option<usize>)
    requires
        layout_of(packed, scales, fixed, columns) is Some,
    ensures
        ({
            let (bits, size) = layout_of(packed, scales, fixed, columns)->0;
            let count = columns_of(packed[1] * WORD_BITS, bits, columns)->0;
            &&& size * scales[1] == count
            &&& size > 0
            &&& 0 < bits <= 16
            &&& columns is None ==> bits * count == packed[1] * WORD_BITS
            &&& fixed is None ==> bits * count == packed[1] * WORD_BITS
        }),
{
    let (bits, size) = layout_of(packed, scales, fixed, columns)->0;
    let packed_bits = packed[1] * WORD_BITS;
    let count = columns_of(packed_bits, bits, columns)->0;
    let groups = scales[1] as int;
    vstd::arithmetic::div_mod::lemma_fundamental_div_mod(count, groups);
    assert(groups * (count / groups) == (count / groups) * groups) by (nonlinear_arith);
    assert(size > 0) by (nonlinear_arith)
        requires
            size * groups == count,
            count > 0,
            groups > 0,
    ;
    if columns is None {
        vstd::arithmetic::div_mod::lemma_fundamental_div_mod(packed_bits, bits);
    }
    if fixed is None {
        vstd::arithmetic::div_mod::lemma_fundamental_div_mod(packed_bits, count);
        assert(count * (packed_bits / count) == (packed_bits / count) * count) by (nonlinear_arith);
    }
}

/// The bytes of packed words, the lowest of each word first.
pub open spec fn words_of(bytes: Seq<u8>) -> Option<Seq<u32>> {
    if bytes.len() % 4 == 0 {
        Some(Seq::new(bytes.len() / 4, |i: int| word_at(bytes, i)))
    } else {
        None
    }
}

/// The word at place `i`.
pub open spec fn word_at(bytes: Seq<u8>, i: int) -> u32 {
    (bytes[4 * i] + 256 * bytes[4 * i + 1] + 65536 * bytes[4 * i + 2] + 16777216 * bytes[4 * i + 3]) as u32
}

/// The words that bytes pack. Refused where they are not whole.
pub fn bytes_to_u32(bytes: &Vec<u8>) -> (out: Result<Vec<u32>, InferError>)
    ensures
        match out {
            Ok(words) => words_of(bytes@) == Some(words@),
            Err(error) => words_of(bytes@) is None && error is Shape,
        },
{
    let n: usize = bytes.len();
    if n % 4 != 0 {
        return Err(InferError::Shape("packed words are not whole"));
    }
    let count: usize = n / 4;
    let mut words: Vec<u32> = Vec::new();
    let mut i: usize = 0;
    while i < count
        invariant
            i <= count,
            count == n / 4,
            n == bytes@.len(),
            n % 4 == 0,
            words@.len() == i,
            forall|j: int| 0 <= j < i ==> words@[j] == word_at(bytes@, j),
        decreases count - i,
    {
        let low: u32 = bytes[4 * i] as u32 + 256 * (bytes[4 * i + 1] as u32);
        let high: u32 = 65536 * (bytes[4 * i + 2] as u32) + 16777216 * (bytes[4 * i + 3] as u32);
        words.push(low + high);
        i = i + 1;
    }
    assert(words@ =~= words_of(bytes@)->0);
    Ok(words)
}

} // verus!
