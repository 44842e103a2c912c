//! Files of tensors by name.

use vstd::prelude::*;
use vstd::string::*;
use safetensors::SafeTensors;
use crate::tensor::copy_range;

verus! {

/// Bytes before the header of a file: its length.
pub const LENGTH_BYTES: usize = 8;

/// Length of the header that a file claims.
pub open spec fn claimed_length(bytes: Seq<u8>) -> int {
    bytes[0] + 0x100 * bytes[1] + 0x10000 * bytes[2] + 0x1000000 * bytes[3] + 0x100000000 * bytes[4] + 0x10000000000 * bytes[5] + 0x1000000000000
        * bytes[6] + 0x100000000000000 * bytes[7]
}

/// The header of a file, where the file is as long as its header claims to be.
pub open spec fn header_of(bytes: Seq<u8>) -> Option<Seq<u8>> {
    if bytes.len() < LENGTH_BYTES || LENGTH_BYTES + claimed_length(bytes) > bytes.len() {
        None
    } else {
        Some(bytes.subrange(LENGTH_BYTES as int, LENGTH_BYTES + claimed_length(bytes)))
    }
}

/// The file has no header, or the length of the file that its header speaks of is within
/// the machine's range.
pub open spec fn in_range(bytes: Seq<u8>) -> bool {
    match header_of(bytes) {
        Some(header) => declared_length(header) matches Some(length) ==> LENGTH_BYTES + header.len() + length <= usize::MAX,
        None => true,
    }
}

fn copy_header(bytes: &Vec<u8>) -> (header: Option<Vec<u8>>)
    ensures
        match header {
            Some(header) => header_of(bytes@) == Some(header@),
            None => header_of(bytes@) is None,
        },
{
    let n: usize = bytes.len();
    if n < LENGTH_BYTES {
        return None;
    }
    let ghost b = bytes@;
    proof {
        assert(claimed_length(b) == b[0] + 0x100 * (b[1] + 0x100 * (b[2] + 0x100 * (b[3] + 0x100 * (b[4] + 0x100 * (b[5] + 0x100 * (b[6] + 0x100
            * b[7])))))));
    }
    let mut length: u128 = bytes[7] as u128;
    length = length * 256 + bytes[6] as u128;
    length = length * 256 + bytes[5] as u128;
    length = length * 256 + bytes[4] as u128;
    length = length * 256 + bytes[3] as u128;
    length = length * 256 + bytes[2] as u128;
    length = length * 256 + bytes[1] as u128;
    length = length * 256 + bytes[0] as u128;
    assert(length == claimed_length(b));
    if length + 8 > n as u128 {
        None
    } else {
        Some(copy_range(bytes, LENGTH_BYTES, (length + 8) as usize))
    }
}

/// Whether the length of the file that its header speaks of is within the machine's range.
pub fn is_in_range(bytes: &Vec<u8>) -> (yes: bool)
    ensures
        yes == in_range(bytes@),
{
    match copy_header(bytes) {
        Some(header) => match read_declared_length(&header) {
            Some(length) => match length.checked_add(LENGTH_BYTES) {
                Some(sum) => sum.checked_add(header.len()).is_some(),
                None => false,
            },
            None => true,
        },
        None => true,
    }
}

/// A file of tensors that was read: `safetensors::SafeTensors`.
#[verifier::external_type_specification]
#[verifier::external_body]
pub struct ExSafeTensors<'data>(safetensors::SafeTensors<'data>);

/// Why a file of tensors was refused: `safetensors::SafeTensorError`.
#[verifier::external_type_specification]
#[verifier::external_body]
pub struct ExSafeTensorError(safetensors::SafeTensorError);

/// A stored tensor: the name of its number format, its shape and its bytes.
pub type Stored = (Seq<char>, Seq<usize>, Seq<u8>);

/// What a file that was read holds under each name.
pub uninterp spec fn contents(archive: safetensors::SafeTensors<'_>) -> Map<Seq<char>, (Seq<char>, Seq<usize>, Seq<u8>)>;

/// What the bytes of a file hold under each name, where they are a file of tensors.
pub uninterp spec fn parsed(bytes: Seq<u8>) -> Option<Map<Seq<char>, (Seq<char>, Seq<usize>, Seq<u8>)>>;

/// Bytes that the tensors of a header fill, where it is a header.
pub uninterp spec fn declared_length(header: Seq<u8>) -> Option<usize>;

/// `serde_json::from_slice` of a header as a `safetensors::tensor::Metadata`, and
/// `Metadata::data_len` of it: whether it is a header, and the bytes that its tensors fill,
/// depend on the bytes of the header alone.
#[verifier::external_body]
pub(crate) fn read_declared_length(header: &Vec<u8>) -> (length: Option<usize>)
    ensures
        length == declared_length(header@),
{
    match serde_json::from_slice::<safetensors::tensor::Metadata>(header) {
        Ok(metadata) => Some(metadata.data_len()),
        Err(_) => None,
    }
}

/// `SafeTensors::deserialize`: reads the header of a file and checks that the tensors fill
/// the rest of it. Whether it does, and what it then holds, depends on the bytes alone.
/// The check adds the bytes that the tensors fill to the length of the header, so a file
/// where that leaves the machine's range is left out.
#[verifier::external_body]
pub(crate) fn read_archive<'data>(bytes: &'data Vec<u8>) -> (out: Result<SafeTensors<'data>, safetensors::SafeTensorError>)
    requires
        in_range(bytes@),
    ensures
        match out {
            Ok(archive) => parsed(bytes@) == Some(contents(archive)),
            Err(_) => parsed(bytes@) is None,
        },
{
    SafeTensors::deserialize(bytes)
}

/// `SafeTensors::names`: each name of the file once, in no order that can be told.
#[verifier::external_body]
pub(crate) fn archive_names(archive: &SafeTensors<'_>) -> (names: Vec<String>)
    ensures
        forall|i: int| 0 <= i < names@.len() ==> contents(*archive).contains_key((#[trigger] names@[i])@),
        forall|name: Seq<char>| #[trigger]
            contents(*archive).contains_key(name) ==> exists|i: int| 0 <= i < names@.len() && (#[trigger] names@[i])@ == name,
        forall|i: int, j: int| 0 <= i < j < names@.len() ==> (#[trigger] names@[i])@ != (#[trigger] names@[j])@,
{
    archive.names().into_iter().map(|name| name.to_string()).collect()
}

/// `SafeTensors::tensor`: what stands under a name; refused where the file does not hold
/// the name.
#[verifier::external_body]
pub(crate) fn archive_tensor(archive: &SafeTensors<'_>, name: &String) -> (out: Result<(String, Vec<usize>, Vec<u8>), safetensors::SafeTensorError>)
    ensures
        match out {
            Ok((format, shape, data)) => contents(*archive).contains_key(name@) && contents(*archive)[name@] == (format@, shape@, data@),
            Err(_) => !contents(*archive).contains_key(name@),
        },
{
    let view = archive.tensor(name)?;
    Ok((view.dtype().to_string(), view.shape().to_vec(), view.data().to_vec()))
}

} // verus!
