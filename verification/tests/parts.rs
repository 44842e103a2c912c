use causal_decoder::append_check::{check_mtp_append_kv_oracle, compare_mtp_kv_buffer_bits, AppendCheck, DeviceCells};
use causal_decoder::error::InferError;
use causal_decoder::experts::{merge_experts, ExpertPair, ExpertStats};
use causal_decoder::flags::{
    attention_parallel_threshold, env_count, env_flag, parse_count, prefix_cache_capacity, prefix_cache_enabled, Switch,
};
use causal_decoder::names::{
    is_bare_mtp_sidecar_key, normalize_mtp_draft_lm_head_key, normalize_mtp_sidecar_key, starts, strip,
};
use causal_decoder::resident_verify::resident_capture_slot;

fn text(value: &str) -> Option<Vec<u8>> {
    Some(value.as_bytes().to_vec())
}

#[test]
fn switches_read_words_in_any_case() {
    for on in ["1", "true", "TRUE", "On"] {
        assert!(env_flag(&text(on), false));
    }
    for off in ["0", "false", "False", "OFF"] {
        assert!(!env_flag(&text(off), true));
    }
    for other in ["", "yes", "2", " 1"] {
        assert!(env_flag(&text(other), true));
        assert!(!env_flag(&text(other), false));
    }
    assert!(env_flag(&None, true));
    assert!(!env_flag(&None, false));
}

#[test]
fn switches_have_their_names_and_defaults() {
    assert_eq!(Switch::GpuArgmax.variable(), "RETI_RUST_GPU_ARGMAX");
    assert!(Switch::GpuArgmax.enabled(&None));
    assert!(!Switch::GpuArgmax.enabled(&text("off")));
    assert!(!Switch::DecodeResident.enabled(&None));
    assert!(Switch::DecodeResident.enabled(&text("on")));
    assert!(prefix_cache_enabled(false, &None));
    assert!(!prefix_cache_enabled(true, &text("1")));
    assert!(!prefix_cache_enabled(false, &text("0")));
}

#[test]
fn counts_are_read_or_left_at_their_default() {
    assert_eq!(parse_count(&b"42".to_vec()), Some(42));
    assert_eq!(parse_count(&b"+7".to_vec()), Some(7));
    assert_eq!(parse_count(&b"007".to_vec()), Some(7));
    assert_eq!(parse_count(&usize::MAX.to_string().into_bytes()), Some(usize::MAX));
    for wrong in ["", "+", "-1", "1.5", " 1", "99999999999999999999999"] {
        assert_eq!(parse_count(&wrong.as_bytes().to_vec()), None);
    }
    assert_eq!(env_count(&text("x"), 9), 9);
    assert_eq!(attention_parallel_threshold(&None), 128);
    assert_eq!(attention_parallel_threshold(&text("64")), 64);
    assert_eq!(prefix_cache_capacity(&None), 4);
    assert_eq!(prefix_cache_capacity(&text("0")), 0);
}

#[test]
fn names_of_heads_are_brought_into_form() {
    for (given, settled) in [
        ("language_model.mtp.fc.weight", "mtp.fc.weight"),
        ("mtp.norm.weight", "mtp.norm.weight"),
        ("fc.weight", "mtp.fc.weight"),
        ("layers.0.x", "mtp.layers.0.x"),
        ("pre_fc_norm_hidden.weight", "mtp.pre_fc_norm_hidden.weight"),
        ("other", "other"),
    ] {
        let once = normalize_mtp_sidecar_key(&given.to_string());
        assert_eq!(once, settled);
        assert_eq!(normalize_mtp_sidecar_key(&once), settled);
    }
    assert!(is_bare_mtp_sidecar_key(&"norm.weight".to_string()));
    assert!(!is_bare_mtp_sidecar_key(&"fc.bias".to_string()));
    for given in ["weight", "lm_head.weight", "model.lm_head.weight", "language_model._mtplx_draft_lm_head.weight"] {
        assert_eq!(normalize_mtp_draft_lm_head_key(&given.to_string()), "lm_head.weight");
    }
    assert_eq!(normalize_mtp_draft_lm_head_key(&"bias".to_string()), "bias");
    assert!(starts(&"abc".to_string(), "ab") && !starts(&"a".to_string(), "ab"));
    assert_eq!(strip(&"abc".to_string(), "ab"), Some("c".to_string()));
    assert_eq!(strip(&"abc".to_string(), "b"), None);
}

#[test]
fn experts_of_two_streams_are_counted_once() {
    assert_eq!(merge_experts(vec![3, 1], &vec![1, 4, 4]), vec![3, 1, 4]);
    let mut stats = ExpertStats::new();
    let pair = |first: Vec<u32>, second: Vec<u32>| Some(ExpertPair { first, second, top_k: 2 });
    stats.record(vec![None, pair(vec![0, 1], vec![1, 2])]);
    stats.record(vec![pair(vec![0, 1], vec![2, 3]), pair(vec![0, 1], vec![0, 1])]);
    assert_eq!((stats.steps, stats.samples, stats.sum_distinct, stats.top_k), (2, 3, 9, 2));
    assert_eq!(stats.histogram, vec![0, 0, 1, 1, 1]);
    assert_eq!(stats.per_layer, vec![(4, 1), (5, 2)]);
    let before = stats.reset();
    assert_eq!((before.steps, before.samples, before.sum_distinct, before.top_k), (2, 3, 9, 2));
    assert_eq!(before.per_layer, vec![(4, 1), (5, 2)]);
    assert_eq!((stats.steps, stats.samples, stats.sum_distinct, stats.top_k), (0, 0, 0, 0));
    assert!(stats.histogram.is_empty() && stats.per_layer.is_empty());
}

#[test]
fn buffers_are_held_bit_by_bit() {
    let f32s = |bits: &[u32]| DeviceCells::F32(bits.to_vec());
    assert!(compare_mtp_kv_buffer_bits(&f32s(&[1, 2]), &f32s(&[1, 2])).is_ok());
    let minus_zero = (-0.0_f32).to_bits();
    assert!(matches!(compare_mtp_kv_buffer_bits(&f32s(&[0]), &f32s(&[minus_zero])), Err(InferError::Config(_))));
    assert!(compare_mtp_kv_buffer_bits(&DeviceCells::Bf16(vec![7]), &DeviceCells::Bf16(vec![7])).is_ok());
    assert!(matches!(
        compare_mtp_kv_buffer_bits(&DeviceCells::Bf16(vec![7]), &DeviceCells::Bf16(vec![8])),
        Err(InferError::Config(_))
    ));
    assert!(matches!(compare_mtp_kv_buffer_bits(&f32s(&[7]), &DeviceCells::Bf16(vec![7])), Err(InferError::Dimension(_))));
    assert!(matches!(
        compare_mtp_kv_buffer_bits(&DeviceCells::U32(vec![1]), &DeviceCells::U32(vec![1])),
        Err(InferError::Metal(_))
    ));
}

#[test]
fn appended_rows_are_checked_once() {
    let check = AppendCheck {
        keys: (DeviceCells::F32(vec![1, 2]), DeviceCells::F32(vec![1, 2])),
        values: (DeviceCells::F32(vec![3, 4]), DeviceCells::F32(vec![3, 4])),
    };
    let mut kept = 2;
    assert!(matches!(check_mtp_append_kv_oracle(&check, &mut kept, 1, 1), Err(InferError::Dimension(_))));
    assert!(matches!(check_mtp_append_kv_oracle(&check, &mut kept, 2, usize::MAX), Err(InferError::Dimension(_))));
    assert_eq!(kept, 2);
    assert!(check_mtp_append_kv_oracle(&check, &mut kept, 2, 1).is_ok());
    assert_eq!(kept, 0);
    let wrong = AppendCheck { values: (DeviceCells::F32(vec![3]), DeviceCells::F32(vec![5])), ..check };
    assert!(check_mtp_append_kv_oracle(&wrong, &mut kept, 2, 1).is_ok());
    kept = 2;
    assert!(matches!(check_mtp_append_kv_oracle(&wrong, &mut kept, 2, 1), Err(InferError::Config(_))));
    assert_eq!(kept, 2);
}

#[test]
fn captures_go_to_the_first_slot_of_their_layer() {
    assert_eq!(resident_capture_slot(&vec![4, 2, 2], 2), Some(1));
    assert_eq!(resident_capture_slot(&vec![4, 2], 3), None);
}
