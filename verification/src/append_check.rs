//! The keys and values of a draft head on a device, held bit by bit against those that
//! rows one after the other leave.

use vstd::prelude::*;
use crate::error::{Fault, InferError};

verus! {

/// Numbers read from a device, bit by bit.
pub enum DeviceCells {
    F32(Vec<u32>),
    Bf16(Vec<u16>),
    U32(Vec<u32>),
}

/// Both are of one format.
pub open spec fn same_format(a: DeviceCells, b: DeviceCells) -> bool {
    match a {
        DeviceCells::F32(_) => b is F32,
        DeviceCells::Bf16(_) => b is Bf16,
        DeviceCells::U32(_) => b is U32,
    }
}

/// Both have the same cells, as far as both go.
pub open spec fn same_start<T>(a: Seq<T>, b: Seq<T>) -> bool {
    forall|i: int| 0 <= i < a.len() && i < b.len() ==> #[trigger] a[i] == b[i]
}

/// Why two buffers do not agree, if they do not.
pub open spec fn bits_fault(actual: DeviceCells, oracle: DeviceCells) -> Option<Fault> {
    if !same_format(actual, oracle) {
        Some(Fault::Dimension)
    } else {
        match actual {
            DeviceCells::F32(cells) => if same_start(cells@, oracle->F32_0@) {
                None
            } else {
                Some(Fault::Config)
            },
            DeviceCells::Bf16(cells) => if same_start(cells@, oracle->Bf16_0@) {
                None
            } else {
                Some(Fault::Config)
            },
            DeviceCells::U32(_) => Some(Fault::Metal),
        }
    }
}

fn words_agree(a: &Vec<u32>, b: &Vec<u32>) -> (same: bool)
    ensures
        same == same_start(a@, b@),
{
    let mut i: usize = 0;
    while i < a.len() && i < b.len()
        invariant
            i <= a@.len(),
            forall|j: int| 0 <= j < i ==> #[trigger] a@[j] == b@[j],
        decreases a@.len() - i,
    {
        if a[i] != b[i] {
            return false;
        }
        i = i + 1;
    }
    true
}

fn halves_agree(a: &Vec<u16>, b: &Vec<u16>) -> (same: bool)
    ensures
        same == same_start(a@, b@),
{
    let mut i: usize = 0;
    while i < a.len() && i < b.len()
        invariant
            i <= a@.len(),
            forall|j: int| 0 <= j < i ==> #[trigger] a@[j] == b@[j],
        decreases a@.len() - i,
    {
        if a[i] != b[i] {
            return false;
        }
        i = i + 1;
    }
    true
}

/// Holds a buffer bit by bit against another. Refused where the formats differ, where they
/// hold no keys or values, or where a cell differs.
pub fn compare_mtp_kv_buffer_bits(actual: &DeviceCells, oracle: &DeviceCells) -> (out: Result<(), InferError>)
    ensures
        match out {
            Ok(_) => bits_fault(*actual, *oracle) is None,
            Err(error) => bits_fault(*actual, *oracle) == Some(error.fault()),
        },
{
    let same: bool = match (actual, oracle) {
        (DeviceCells::F32(a), DeviceCells::F32(b)) => words_agree(a, b),
        (DeviceCells::Bf16(a), DeviceCells::Bf16(b)) => halves_agree(a, b),
        (DeviceCells::U32(_), DeviceCells::U32(_)) => {
            return Err(InferError::Metal("indices where keys and values are due"));
        },
        _ => {
            return Err(InferError::Dimension("buffers of different formats"));
        },
    };
    if same {
        Ok(())
    } else {
        Err(InferError::Config("buffers differ"))
    }
}

/// Keys and values, each as it is and as it should be.
pub struct AppendCheck {
    pub keys: (DeviceCells, DeviceCells),
    pub values: (DeviceCells, DeviceCells),
}

/// Why rows that were appended at once are not those of rows one after the other.
pub open spec fn append_fault(check: AppendCheck, oracle_len: usize, expected_len: usize, kv_dim: usize) -> Option<Fault> {
    if oracle_len == 0 {
        None
    } else if oracle_len != expected_len || expected_len * kv_dim > usize::MAX {
        Some(Fault::Dimension)
    } else {
        match bits_fault(check.keys.0, check.keys.1) {
            Some(fault) => Some(fault),
            None => bits_fault(check.values.0, check.values.1),
        }
    }
}

/// Holds the rows that were appended to a head's cache at once against rows one after the
/// other, once; nothing is checked where none were kept to check against.
pub fn check_mtp_append_kv_oracle(check: &AppendCheck, oracle_len: &mut usize, expected_len: usize, kv_dim: usize) -> (out: Result<(), InferError>)
    ensures
        match out {
            Ok(_) => append_fault(*check, *old(oracle_len), expected_len, kv_dim) is None && *final(oracle_len) == 0,
            Err(error) => append_fault(*check, *old(oracle_len), expected_len, kv_dim) == Some(error.fault()) && *final(oracle_len) == *old(
                oracle_len,
            ),
        },
{
    if *oracle_len == 0 {
        return Ok(());
    }
    if *oracle_len != expected_len {
        return Err(InferError::Dimension("rows to check against differ in number"));
    }
    if expected_len.checked_mul(kv_dim).is_none() {
        return Err(InferError::Dimension("cells to check leave the machine's range"));
    }
    compare_mtp_kv_buffer_bits(&check.keys.0, &check.keys.1)?;
    compare_mtp_kv_buffer_bits(&check.values.0, &check.values.1)?;
    *oracle_len = 0;
    Ok(())
}

} // verus!
