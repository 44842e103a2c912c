//! Layouts of packed weights.

use causal_decoder::affine::{bytes_to_u32, infer_mtp_affine_layout};
use causal_decoder::error::InferError;

#[test]
fn infer_mtp_affine_group_size_accepts_gs32_and_gs64() {
    let (_, gs32) =
        infer_mtp_affine_layout(&vec![12_288, 640], &vec![12_288, 160], Some(4), None).expect("layout");
    let (_, gs64) =
        infer_mtp_affine_layout(&vec![12_288, 640], &vec![12_288, 80], Some(4), None).expect("layout");
    assert_eq!(gs32, 32);
    assert_eq!(gs64, 64);
}

#[test]
fn infer_mtp_affine_layout_accepts_q3_draft_head() {
    let (bits, group_size) =
        infer_mtp_affine_layout(&vec![152_064, 480], &vec![152_064, 80], None, Some(5120)).expect("layout");
    assert_eq!(bits, 3);
    assert_eq!(group_size, 64);
}

#[test]
fn layouts_that_do_not_fit_are_refused() {
    let refuse = |packed: Vec<usize>, scales: Vec<usize>, bits: Option<usize>, cols: Option<usize>| {
        infer_mtp_affine_layout(&packed, &scales, bits, cols).expect_err("refused")
    };
    assert!(matches!(refuse(vec![4], vec![4, 1], Some(4), None), InferError::Dimension(_)));
    assert!(matches!(refuse(vec![4, 1], vec![4], Some(4), None), InferError::Dimension(_)));
    assert!(matches!(refuse(vec![4, 1], vec![3, 1], Some(4), None), InferError::Dimension(_)));
    assert!(matches!(refuse(vec![4, 1], vec![4, 0], Some(4), None), InferError::Shape(_)));
    assert!(matches!(refuse(vec![4, usize::MAX], vec![4, 1], Some(4), None), InferError::Shape(_)));
    assert!(matches!(refuse(vec![4, 1], vec![4, 1], None, None), InferError::Config(_)));
    assert!(matches!(refuse(vec![4, 1], vec![4, 1], None, Some(5)), InferError::Dimension(_)));
    assert!(matches!(refuse(vec![4, 1], vec![4, 1], Some(17), None), InferError::Config(_)));
    assert!(matches!(refuse(vec![4, 1], vec![4, 1], Some(5), None), InferError::Shape(_)));
    assert!(matches!(refuse(vec![4, 1], vec![4, 3], Some(4), None), InferError::Dimension(_)));
}

#[test]
fn words_are_read_from_the_low_byte_up() {
    assert_eq!(bytes_to_u32(&vec![1, 2, 3, 4, 255, 0, 0, 128]).expect("words"), vec![0x0403_0201, 0x8000_00ff]);
    assert!(matches!(bytes_to_u32(&vec![1, 2, 3]).expect_err("half a word"), InferError::Shape(_)));
}
