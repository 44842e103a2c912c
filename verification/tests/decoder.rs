//! The decoder on small models, with `f32` numbers.

use causal_decoder::adaptive::AdaptiveDepthController;
use causal_decoder::attend::{cached_attention_one, causal_attention};
use causal_decoder::attention::{attention_layout, AttentionLayout};
use causal_decoder::config::{CausalDecoderConfig, RopeStyle};
use causal_decoder::capture::validate_capture_layer_ids;
use causal_decoder::decoder::{default_options, CausalDecoder};
use causal_decoder::device::{Command, NormWeight, OutputMap, Place, Slot, Spot, TokenPlace};
use causal_decoder::duo::{DuoCommand, DuoFacts};
use causal_decoder::duo_streams::{duo_round, DuoRound};
use causal_decoder::error::InferError;
use causal_decoder::flags::DecoderFlags;
use causal_decoder::heads::{apply_rope_heads, apply_rope_heads_at, rms_norm_heads, rms_norm_rope_heads_at};
use causal_decoder::kernel::{Activation, Binary, Constant, DeviceRoute, Kernel, SamplingParams, Unary};
use causal_decoder::kv::LayerKvCache;
use causal_decoder::context::{prepare_qkv, settle_context};
use causal_decoder::layer::{begin_cached, forward_cached, forward_prefill, settle_cached, AttentionBlock, DecoderLayer};
use causal_decoder::layer_route::{prefill_route, settle_prefill, tail_route, PrefillAnswer, PrefillCall, TailRoute};
use causal_decoder::linear::{rms_norm, FeedForward};
use causal_decoder::loading::split_experts;
use causal_decoder::loading::full_attention_from_tensors;
use causal_decoder::model::DecoderModel;
use causal_decoder::mtp_head::{MtpHead, MtpLayer};
use causal_decoder::options::{GenerationOptions, TokenSampler};
use causal_decoder::pipeline::{Pipeline, PipelineAction};
use causal_decoder::prefix_cache::{longest_prefix_entry_index, PrefixCacheEntry};
use causal_decoder::resident::{DeviceFacts, ResidentCache};
use causal_decoder::resident_decode::{pipeline_scratch_namespace, ResidentDecodeInput};
use causal_decoder::resident_prefill::{PrefillFacts, PrefillLayerState};
use causal_decoder::resident_rounds::{counts_fit, is_countable, next_round_kind, ResidentRun, RoundKind};
use causal_decoder::resident_spec::decide_two;
use causal_decoder::resident_verify::VerifyRequest;
use causal_decoder::rollback::ResidentVerifyCaptures;
use causal_decoder::rows::RopeParams;
use causal_decoder::sidecar::load_mtp_draft_lm_head;
use causal_decoder::solo_route::{DecodeUse, SoloRoute, SoloSwitches};
use causal_decoder::speculation::tokens_to_check;
use causal_decoder::stats::SpeculativeStats;
use causal_decoder::sink::TokenLog;
use causal_decoder::store::{DecoderTensor, TensorStore};
use causal_decoder::tensor::Tensor;
use causal_decoder::xray::{DeviceTrace, Distance};
use causal_decoder::weights::{
    AffineMatrix, DraftModel, GatedMlp, Linear, LinearAttentionConfig, LinearAttentionWeights, LinearWeight, MoeMlp,
};
use safetensors::{serialize, Dtype, View};
use std::borrow::Cow;
use std::collections::HashMap;

/// Single-precision arithmetic on the host.
#[derive(Clone, Copy)]
struct F32;

fn unpack(matrix: &AffineMatrix<f32>, row: usize, col: usize) -> f32 {
    let words_per_row = matrix.packed.len() / matrix.rows;
    let bit = col * matrix.bits;
    let word = matrix.packed[row * words_per_row + bit / 32];
    let mut value = (word >> (bit % 32)) as u64;
    if bit % 32 + matrix.bits > 32 {
        value |= (matrix.packed[row * words_per_row + bit / 32 + 1] as u64) << (32 - bit % 32);
    }
    let value = value & ((1_u64 << matrix.bits) - 1);
    let groups = matrix.cols / matrix.group_size;
    let group = row * groups + col / matrix.group_size;
    value as f32 * matrix.scales[group] + matrix.biases[group]
}

fn weight_rows(weight: &LinearWeight<f32>) -> Vec<Vec<f32>> {
    match weight {
        LinearWeight::Dense(tensor) => {
            let cols = tensor.shape[1];
            (0..tensor.shape[0]).map(|row| tensor.data[row * cols..(row + 1) * cols].to_vec()).collect()
        }
        LinearWeight::AffineQuantized(matrix) => (0..matrix.rows)
            .map(|row| (0..matrix.cols).map(|col| unpack(matrix, row, col)).collect())
            .collect(),
    }
}

fn times(weight: &LinearWeight<f32>, row: &[f32]) -> Vec<f32> {
    weight_rows(weight).iter().map(|w| w.iter().zip(row).map(|(a, b)| a * b).sum()).collect()
}

fn sigmoid(x: f32) -> f32 {
    1.0 / (1.0 + (-x).exp())
}

fn silu(x: f32) -> f32 {
    x * sigmoid(x)
}

fn unit(row: &[f32]) -> Vec<f32> {
    let norm = (row.iter().map(|x| x * x).sum::<f32>() + 1.0e-6).sqrt();
    row.iter().map(|x| x / norm).collect()
}

fn rms(row: &[f32], weight: &[f32], eps: f32) -> Vec<f32> {
    let mean = row.iter().map(|x| x * x).sum::<f32>() / row.len() as f32;
    let scale = 1.0 / (mean + eps).sqrt();
    row.iter().zip(weight).map(|(x, w)| x * scale * w).collect()
}

fn softmax(logits: &[f32], temperature: f32) -> Vec<f32> {
    let top = logits.iter().cloned().fold(f32::NEG_INFINITY, f32::max);
    let raised: Vec<f32> = logits.iter().map(|x| ((x - top) / temperature.max(f32::EPSILON)).exp()).collect();
    let total: f32 = raised.iter().sum();
    raised.iter().map(|x| x / total).collect()
}

fn next_random(random: u64) -> u64 {
    random.wrapping_mul(6_364_136_223_846_793_005).wrapping_add(1_442_695_040_888_963_407)
}

fn pick(weights: &[f32], random: u64) -> (usize, u64) {
    let random = next_random(random);
    let mut left = (random >> 40) as f32 / (1_u64 << 24) as f32 * weights.iter().sum::<f32>();
    for (token, weight) in weights.iter().enumerate() {
        left -= weight;
        if left <= 0.0 {
            return (token, random);
        }
    }
    (weights.len() - 1, random)
}

impl Kernel for F32 {
    type Cell = f32;

    fn constant(&self, which: Constant) -> f32 {
        match which {
            Constant::Zero => 0.0,
            Constant::One => 1.0,
            Constant::Epsilon => f32::EPSILON,
            Constant::NegInfinity => f32::NEG_INFINITY,
            Constant::MinTemperature => f32::EPSILON,
            Constant::MinPositive => f32::MIN_POSITIVE,
            Constant::Half => 0.5,
        }
    }

    fn unary(&self, op: Unary, a: f32) -> f32 {
        match op {
            Unary::Exp => a.exp(),
            Unary::Sqrt => a.sqrt(),
            Unary::Tanh => a.tanh(),
            Unary::Cos => a.cos(),
            Unary::Sin => a.sin(),
            Unary::Abs => a.abs(),
            Unary::Negate => -a,
        }
    }

    fn binary(&self, op: Binary, a: f32, b: f32) -> f32 {
        match op {
            Binary::Add => a + b,
            Binary::Sub => a - b,
            Binary::Mul => a * b,
            Binary::Div => a / b,
            Binary::Max => a.max(b),
            Binary::Pow => a.powf(b),
        }
    }

    fn count(&self, n: usize) -> f32 {
        n as f32
    }

    fn at_most(&self, a: f32, b: f32) -> bool {
        a <= b
    }

    fn activate(&self, activation: Activation, a: f32) -> f32 {
        match activation {
            Activation::Silu => silu(a),
            Activation::GeluTanh => gelu_tanh(a),
        }
    }

    fn project(&self, weight: &LinearWeight<f32>, row: &Vec<f32>) -> Vec<f32> {
        times(weight, row)
    }

    fn lookup(&self, table: &LinearWeight<f32>, token: usize) -> Vec<f32> {
        weight_rows(table).get(token).cloned().unwrap_or_default()
    }

    fn recur(
        &self,
        weights: &LinearAttentionWeights<f32>,
        config: LinearAttentionConfig,
        state: &Vec<f32>,
        row: &Vec<f32>,
    ) -> (Vec<f32>, Vec<f32>) {
        let key_dim = config.num_key_heads * config.key_head_dim;
        let value_dim = config.num_value_heads * config.value_head_dim;
        let channels = 2 * key_dim + value_dim;
        let taps = config.conv_kernel_dim;
        let memory = config.num_value_heads * config.value_head_dim * config.key_head_dim;
        let past = (taps - 1) * channels;
        let mut state = if state.is_empty() { vec![0.0; past + memory] } else { state.clone() };
        let mixed = times(&weights.in_proj_qkv.weight, row);
        let z = times(&weights.in_proj_z.weight, row);
        let b = times(&weights.in_proj_b.weight, row);
        let a = times(&weights.in_proj_a.weight, row);
        let mut window = state[..past].to_vec();
        window.extend_from_slice(&mixed);
        let convolved: Vec<f32> = (0..channels)
            .map(|channel| {
                let sum: f32 = (0..taps)
                    .map(|tap| weights.conv1d_weight.data[channel * taps + tap] * window[tap * channels + channel])
                    .sum();
                silu(sum)
            })
            .collect();
        state[..past].copy_from_slice(&window[channels..]);
        let mut out = Vec::new();
        let per_key = config.num_value_heads / config.num_key_heads;
        for head in 0..config.num_value_heads {
            let key_head = head / per_key;
            let dk = config.key_head_dim;
            let dv = config.value_head_dim;
            let q = unit(&convolved[key_head * dk..(key_head + 1) * dk]);
            let q: Vec<f32> = q.iter().map(|x| x / (dk as f32).sqrt()).collect();
            let k = unit(&convolved[key_dim + key_head * dk..key_dim + (key_head + 1) * dk]);
            let v = &convolved[2 * key_dim + head * dv..2 * key_dim + (head + 1) * dv];
            let decay = (-weights.a_log.data[head].exp() * (1.0 + (a[head] + weights.dt_bias.data[head]).exp()).ln()).exp();
            let beta = sigmoid(b[head]);
            let mut row_out = Vec::new();
            for j in 0..dv {
                let start = past + (head * dv + j) * dk;
                let cells = &mut state[start..start + dk];
                for cell in cells.iter_mut() {
                    *cell *= decay;
                }
                let seen: f32 = cells.iter().zip(&k).map(|(s, x)| s * x).sum();
                let delta = (v[j] - seen) * beta;
                for (cell, x) in cells.iter_mut().zip(&k) {
                    *cell += delta * x;
                }
                row_out.push(cells.iter().zip(&q).map(|(s, x)| s * x).sum::<f32>());
            }
            let normed = rms(&row_out, &weights.norm_weight.data, 1.0e-6);
            out.extend(normed.iter().enumerate().map(|(j, x)| x * silu(z[head * dv + j])));
        }
        (times(&weights.out_proj.weight, &out), state)
    }

    fn mix_experts(&self, moe: &MoeMlp<f32>, row: &Vec<f32>) -> Vec<f32> {
        let routed = match &moe.router_norm {
            Some(norm) => rms(row, &norm.weight.data, norm.eps),
            None => row.clone(),
        };
        let shares = softmax(&times(&moe.router.weight, &routed), 1.0);
        let mut order: Vec<usize> = (0..shares.len()).collect();
        order.sort_by(|a, b| shares[*b].partial_cmp(&shares[*a]).expect("shares compare"));
        order.truncate(moe.top_k);
        let total: f32 = order.iter().map(|expert| shares[*expert]).sum();
        let mut out = vec![0.0; row.len()];
        let gated = |mlp: &causal_decoder::weights::GatedMlp<f32>| {
            let gate = times(&mlp.gate_proj.weight, row);
            let up = times(&mlp.up_proj.weight, row);
            let inner: Vec<f32> = gate.iter().zip(&up).map(|(g, u)| self.activate(mlp.activation, *g) * u).collect();
            times(&mlp.down_proj.weight, &inner)
        };
        for expert in order {
            let scale = match &moe.per_expert_scale {
                Some(scale) => scale.data[expert],
                None => 1.0,
            };
            for (cell, x) in out.iter_mut().zip(gated(&moe.experts[expert])) {
                *cell += shares[expert] / total * scale * x;
            }
        }
        if let (Some(shared), Some(gate)) = (&moe.shared_expert, &moe.shared_expert_gate) {
            let share = sigmoid(times(&gate.weight, row)[0]);
            for (cell, x) in out.iter_mut().zip(gated(shared)) {
                *cell += share * x;
            }
        }
        out
    }

    fn argmax(&self, logits: &Vec<f32>) -> Result<usize, InferError> {
        if logits.is_empty() {
            return Err(InferError::Dimension("no logits to choose from"));
        }
        let mut best = 0;
        for (token, logit) in logits.iter().enumerate() {
            if *logit > logits[best] {
                best = token;
            }
        }
        Ok(best)
    }

    fn draw(&self, logits: &Vec<f32>, params: SamplingParams<f32>, random: u64) -> Result<(usize, u64), InferError> {
        Ok(pick(&softmax(logits, params.temperature), random))
    }

    fn distribution(&self, logits: &Vec<f32>, params: SamplingParams<f32>) -> Result<Vec<f32>, InferError> {
        Ok(softmax(logits, params.temperature))
    }

    fn draw_from(&self, distribution: &Vec<f32>, random: u64) -> Result<(usize, u64), InferError> {
        Ok(pick(distribution, random))
    }

    fn speculate(&self, target: &Vec<f32>, draft: &Vec<f32>, token: usize, random: u64) -> Result<(usize, bool, u64), InferError> {
        let random = next_random(random);
        let chance = (random >> 40) as f32 / (1_u64 << 24) as f32;
        if chance * draft[token] <= target[token] {
            return Ok((token, true, random));
        }
        let rest: Vec<f32> = target.iter().zip(draft).map(|(t, d)| (t - d).max(0.0)).collect();
        let (token, random) = pick(&rest, random);
        Ok((token, false, random))
    }

    fn mask(&self, accepted: &Vec<usize>, logits: &Vec<f32>) -> Result<Vec<f32>, InferError> {
        Ok(logits
            .iter()
            .enumerate()
            .map(|(token, logit)| if token % 2 == accepted.len() % 2 { *logit } else { f32::NEG_INFINITY })
            .collect())
    }

    fn accept(&self, accepted: &Vec<usize>, token: usize) -> Result<(), InferError> {
        if token % 2 == accepted.len() % 2 {
            Ok(())
        } else {
            Err(InferError::Config("a token that the guide does not admit"))
        }
    }

    fn device_token(
        &self,
        _route: DeviceRoute,
        _head: &LinearWeight<f32>,
        _state: &Vec<f32>,
        _params: SamplingParams<f32>,
        _random: u64,
    ) -> Result<Option<usize>, InferError> {
        Ok(None)
    }

    fn device_talker(&self, _head: &LinearWeight<f32>, _state: &Vec<f32>, _suppress_start: usize, _eos: usize) -> Result<Option<usize>, InferError> {
        Ok(None)
    }

    fn advance(&self, random: u64) -> u64 {
        next_random(random)
    }

    fn draft_context(&self, draft: &DraftModel<f32>, captured: &Vec<f32>) -> Vec<f32> {
        let ones = vec![1.0; draft.hidden_size];
        captured.chunks(draft.hidden_size).flat_map(|row| rms(row, &ones, 1.0e-6)).collect()
    }

    fn draft_states(&self, draft: &DraftModel<f32>, embeddings: &Vec<f32>, context: &Vec<f32>) -> Vec<f32> {
        let ones = vec![1.0; draft.hidden_size];
        let mut out = Vec::new();
        for row in embeddings.chunks(draft.hidden_size) {
            let q = rms(row, &ones, 1.0e-6);
            let mut keys: Vec<Vec<f32>> = context.chunks(draft.hidden_size).map(|x| x.to_vec()).collect();
            keys.push(q.clone());
            let scores: Vec<f32> = keys.iter().map(|k| k.iter().zip(&q).map(|(a, b)| a * b).sum::<f32>()).collect();
            let shares = softmax(&scores, (draft.hidden_size as f32).sqrt());
            let mut mixed = row.to_vec();
            for (share, key) in shares.iter().zip(&keys) {
                for (cell, x) in mixed.iter_mut().zip(key) {
                    *cell += share * x;
                }
            }
            out.extend(rms(&mixed, &ones, 1.0e-6));
        }
        out
    }

    fn decode(&self, format: &String, bytes: &Vec<u8>) -> Option<Vec<f32>> {
        match format.as_str() {
            "F32" => Some(bytes.chunks(4).map(|b| f32::from_le_bytes([b[0], b[1], b[2], b[3]])).collect()),
            "BF16" => Some(bytes.chunks(2).map(|b| f32::from_le_bytes([0, 0, b[0], b[1]])).collect()),
            _ => None,
        }
    }

    fn nanoseconds(&self) -> u64 {
        0
    }
}

fn best_of(logits: &Vec<f32>) -> usize {
    F32.argmax(logits).expect("logits to choose from")
}

fn gelu_tanh(x: f32) -> f32 {
    0.5 * x * (1.0 + ((2.0_f32 / std::f32::consts::PI).sqrt() * (x + 0.044_715 * x * x * x)).tanh())
}

fn flags() -> DecoderFlags {
    DecoderFlags {
        gpu_argmax: false,
        gpu_sampler: false,
        prefill_batched: true,
        prefill_linear_batched: true,
        prefill_chunk_size: 0,
        prefix_cache: true,
        prefix_cache_capacity: 4,
        mtp_committed_history: false,
        lightbatch_background_stride: 1,
    }
}

fn default_config() -> CausalDecoderConfig<f32> {
    CausalDecoderConfig {
        num_hidden_layers: 1,
        num_attention_heads: 1,
        num_key_value_heads: 1,
        head_dim: None,
        rope_dims: None,
        rope_theta: Some(10_000.0),
        rope_style: RopeStyle::Halves,
        rope_local_base_freq: None,
        rope_position_scale: None,
        sliding_window: None,
        sliding_window_pattern: None,
        query_pre_attn_scalar: None,
        rms_eps: 1.0e-6,
        attn_output_gate: false,
        attention_value_norm: false,
        full_attention_interval: None,
        linear_num_key_heads: None,
        linear_num_value_heads: None,
        linear_key_head_dim: None,
        linear_value_head_dim: None,
        linear_conv_kernel_dim: None,
        num_experts: None,
        num_experts_per_tok: 0,
        parallel_moe: false,
        activation: Activation::Silu,
        embed_scale: None,
        final_logit_softcapping: None,
        layer_shapes: Vec::new(),
    }
}

fn options() -> GenerationOptions<f32> {
    default_options(&F32)
}

fn tensor(shape: Vec<usize>, data: Vec<f32>) -> Tensor<f32> {
    Tensor::from_vec(shape, data).expect("tensor of its shape")
}

fn store(weights: HashMap<String, Tensor<f32>>) -> TensorStore<f32> {
    let mut store = TensorStore::new();
    for (name, tensor) in weights {
        store.insert(name, DecoderTensor::Dense(tensor));
    }
    store
}

fn decoder(weights: HashMap<String, Tensor<f32>>, config: CausalDecoderConfig<f32>) -> CausalDecoder<F32> {
    CausalDecoder::from_tensors(F32, store(weights), config, flags()).expect("weights fit")
}

fn identity2() -> Tensor<f32> {
    tensor(vec![2, 2], vec![1.0, 0.0, 0.0, 1.0])
}

fn identity4() -> Tensor<f32> {
    tensor(
        vec![4, 4],
        vec![1.0, 0.0, 0.0, 0.0, 0.0, 1.0, 0.0, 0.0, 0.0, 0.0, 1.0, 0.0, 0.0, 0.0, 0.0, 1.0],
    )
}

fn test_weights() -> HashMap<String, Tensor<f32>> {
    let mut tensors = HashMap::new();
    tensors.insert(
        "embed_tokens.weight".to_string(),
        tensor(vec![3, 2], vec![1.0, 0.0, 0.0, 1.0, 1.0, 1.0]),
    );
    tensors.insert("layers.0.input_layernorm.weight".to_string(), tensor(vec![2], vec![1.0, 1.0]));
    tensors.insert("norm.weight".to_string(), tensor(vec![2], vec![1.0, 1.0]));
    for prefix in [
        "layers.0.self_attn.q_proj",
        "layers.0.self_attn.k_proj",
        "layers.0.self_attn.v_proj",
        "layers.0.self_attn.o_proj",
    ] {
        tensors.insert(format!("{prefix}.weight"), identity2());
    }
    tensors.insert(
        "lm_head.weight".to_string(),
        tensor(vec![3, 2], vec![1.0, 0.0, -1.0, 0.0, 0.0, 1.0]),
    );
    tensors
}

fn tiny_draft() -> DraftModel<f32> {
    DraftModel { block_size: 2, mask_token_id: 2, target_layer_ids: vec![0], hidden_size: 2, tensors: Vec::new() }
}

fn hybrid_weights(layer_count: usize, full_attention_interval: usize) -> HashMap<String, Tensor<f32>> {
    let mut tensors = HashMap::new();
    tensors.insert(
        "embed_tokens.weight".to_string(),
        tensor(vec![3, 2], vec![1.0, 0.0, 0.0, 1.0, 1.0, 1.0]),
    );
    tensors.insert("norm.weight".to_string(), tensor(vec![2], vec![1.0, 1.0]));
    tensors.insert(
        "lm_head.weight".to_string(),
        tensor(vec![3, 2], vec![1.0, 0.0, -1.0, 0.0, 0.0, 1.0]),
    );
    for layer in 0..layer_count {
        if (layer + 1) % full_attention_interval == 0 {
            insert_attention_layer(&mut tensors, layer);
        } else {
            insert_linear_attention_layer(&mut tensors, layer);
        }
    }
    tensors
}

fn hybrid_config(layer_count: usize) -> CausalDecoderConfig<f32> {
    CausalDecoderConfig {
        num_hidden_layers: layer_count,
        full_attention_interval: Some(2),
        linear_num_key_heads: Some(1),
        linear_num_value_heads: Some(1),
        linear_key_head_dim: Some(2),
        linear_value_head_dim: Some(2),
        linear_conv_kernel_dim: Some(2),
        ..default_config()
    }
}

fn gated_attention_weights() -> HashMap<String, Tensor<f32>> {
    let mut tensors = test_weights();
    tensors.insert(
        "layers.0.self_attn.q_proj.weight".to_string(),
        tensor(vec![4, 2], vec![1.0, 0.0, 0.0, 1.0, 2.0, 0.0, 0.0, 2.0]),
    );
    tensors
}

fn insert_attention_layer(tensors: &mut HashMap<String, Tensor<f32>>, layer: usize) {
    tensors.insert(format!("layers.{layer}.input_layernorm.weight"), tensor(vec![2], vec![1.0, 1.0]));
    for prefix in [
        format!("layers.{layer}.self_attn.q_proj"),
        format!("layers.{layer}.self_attn.k_proj"),
        format!("layers.{layer}.self_attn.v_proj"),
        format!("layers.{layer}.self_attn.o_proj"),
    ] {
        tensors.insert(format!("{prefix}.weight"), identity2());
    }
}

fn insert_linear_attention_layer(tensors: &mut HashMap<String, Tensor<f32>>, layer: usize) {
    let prefix = format!("layers.{layer}.linear_attn");
    tensors.insert(format!("layers.{layer}.input_layernorm.weight"), tensor(vec![2], vec![1.0, 1.0]));
    tensors.insert(
        format!("{prefix}.in_proj_qkv.weight"),
        tensor(vec![6, 2], vec![1.0, 0.0, 0.0, 1.0, 0.5, 0.0, 0.0, 0.5, 1.0, 0.0, 0.0, 1.0]),
    );
    tensors.insert(format!("{prefix}.in_proj_z.weight"), identity2());
    tensors.insert(format!("{prefix}.in_proj_b.weight"), tensor(vec![1, 2], vec![1.0, 0.0]));
    tensors.insert(format!("{prefix}.in_proj_a.weight"), tensor(vec![1, 2], vec![0.0, 1.0]));
    tensors.insert(format!("{prefix}.out_proj.weight"), identity2());
    tensors.insert(
        format!("{prefix}.conv1d.weight"),
        tensor(vec![6, 2, 1], vec![0.25, 1.0, 0.25, 1.0, 0.25, 1.0, 0.25, 1.0, 0.25, 1.0, 0.25, 1.0]),
    );
    tensors.insert(format!("{prefix}.A_log"), tensor(vec![1], vec![0.0]));
    tensors.insert(format!("{prefix}.dt_bias"), tensor(vec![1], vec![0.0]));
    tensors.insert(format!("{prefix}.norm.weight"), tensor(vec![2], vec![1.0, 1.0]));
}

fn insert_qk_norm(tensors: &mut HashMap<String, Tensor<f32>>, layer: usize, q: Vec<f32>, k: Vec<f32>) {
    tensors.insert(format!("layers.{layer}.self_attn.q_norm.weight"), tensor(vec![q.len()], q));
    tensors.insert(format!("layers.{layer}.self_attn.k_norm.weight"), tensor(vec![k.len()], k));
}

fn insert_identity_mlp(tensors: &mut HashMap<String, Tensor<f32>>) {
    tensors.insert("layers.0.post_attention_layernorm.weight".to_string(), tensor(vec![2], vec![1.0, 1.0]));
    for prefix in ["layers.0.mlp.gate_proj", "layers.0.mlp.up_proj", "layers.0.mlp.down_proj"] {
        tensors.insert(format!("{prefix}.weight"), identity2());
    }
}

fn gqa_weights() -> HashMap<String, Tensor<f32>> {
    let mut tensors = HashMap::new();
    tensors.insert(
        "embed_tokens.weight".to_string(),
        tensor(vec![3, 4], vec![1.0, 0.0, 0.0, 0.0, 0.0, 1.0, 0.0, 0.0, 0.0, 0.0, 1.0, 0.0]),
    );
    tensors.insert("layers.0.input_layernorm.weight".to_string(), tensor(vec![4], vec![1.0, 1.0, 1.0, 1.0]));
    tensors.insert("norm.weight".to_string(), tensor(vec![4], vec![1.0, 1.0, 1.0, 1.0]));
    tensors.insert("layers.0.self_attn.q_proj.weight".to_string(), identity4());
    for prefix in ["layers.0.self_attn.k_proj", "layers.0.self_attn.v_proj"] {
        tensors.insert(
            format!("{prefix}.weight"),
            tensor(vec![2, 4], vec![1.0, 0.0, 0.0, 0.0, 0.0, 1.0, 0.0, 0.0]),
        );
    }
    tensors.insert("layers.0.self_attn.o_proj.weight".to_string(), identity4());
    tensors.insert(
        "lm_head.weight".to_string(),
        tensor(vec![3, 4], vec![1.0, 0.0, 0.0, 0.0, -1.0, 0.0, 0.0, 0.0, 0.0, 1.0, 0.0, 0.0]),
    );
    tensors
}

fn gqa_config() -> CausalDecoderConfig<f32> {
    CausalDecoderConfig {
        num_attention_heads: 2,
        num_key_value_heads: 1,
        head_dim: Some(2),
        rope_theta: Some(10_000.0),
        ..default_config()
    }
}

fn tiny_model() -> CausalDecoder<F32> {
    decoder(gqa_weights(), gqa_config())
}

fn assert_close(left: &[f32], right: &[f32], tolerance: f32) {
    assert_eq!(left.len(), right.len());
    for (idx, (a, b)) in left.iter().zip(right.iter()).enumerate() {
        assert!((a - b).abs() <= tolerance, "index={idx} left={a} right={b} tolerance={tolerance}");
    }
}

#[test]
fn causal_decoder_generates_expected_token() {
    let mut model = decoder(test_weights(), default_config());
    let logits = model.next_logits(&vec![0]).expect("forward");
    assert_eq!(logits.shape(), &vec![1, 3]);
    let generated = model.generate_greedy(&vec![0], 2).expect("greedy");
    assert_eq!(generated, vec![0, 0]);
}

struct F32View {
    shape: Vec<usize>,
    data: Vec<u8>,
}

impl View for F32View {
    fn dtype(&self) -> Dtype {
        Dtype::F32
    }

    fn shape(&self) -> &[usize] {
        &self.shape
    }

    fn data(&self) -> Cow<'_, [u8]> {
        Cow::Borrowed(&self.data)
    }

    fn data_len(&self) -> usize {
        self.data.len()
    }
}

fn file_of(tensors: HashMap<String, Tensor<f32>>) -> Vec<u8> {
    let views: Vec<(String, F32View)> = tensors
        .into_iter()
        .map(|(name, tensor)| {
            let data = tensor.data().iter().flat_map(|v| v.to_le_bytes()).collect();
            (name, F32View { shape: tensor.shape().to_vec(), data })
        })
        .collect();
    serialize(views, None).expect("tensors serialise")
}

#[test]
fn causal_decoder_loads_from_safetensors() {
    let buffer = file_of(test_weights());
    let mut model =
        CausalDecoder::from_safetensors(F32, &buffer, default_config(), flags()).expect("file loads");
    let generated = model.generate_greedy(&vec![0], 1).expect("greedy");
    assert_eq!(generated, vec![0]);
}

#[test]
fn causal_decoder_applies_optional_mlp_block() {
    let base = decoder(test_weights(), default_config());
    let mut weights = test_weights();
    insert_identity_mlp(&mut weights);
    let with_mlp = decoder(weights, default_config());

    let base_logits = base.next_logits(&vec![0]).expect("forward");
    let mlp_logits = with_mlp.next_logits(&vec![0]).expect("forward");
    assert_ne!(base_logits.data(), mlp_logits.data());
}

#[test]
fn dflash_acceptance_matches_autoregressive_greedy() {
    let mut model = decoder(test_weights(), default_config());
    let draft = tiny_draft();
    let options = options();
    let prompt = vec![0_usize, 1];

    let ar = model.generate_greedy_cached_with_options(&prompt, 5, &options).expect("greedy");
    let spec = model
        .generate_greedy_dflash_batched_with_options(&prompt, 5, &options, &draft, 2)
        .expect("drafted greedy");

    assert_eq!(spec.tokens, ar);
    assert!(spec.stats.proposed > 0);
    assert!(spec.stats.verifications > 0);
}

#[test]
fn causal_decoder_supports_grouped_query_attention() {
    let config = CausalDecoderConfig {
        rope_theta: None,
        num_attention_heads: 2,
        num_key_value_heads: 1,
        head_dim: Some(2),
        ..default_config()
    };
    let model = decoder(gqa_weights(), config);
    let logits = model.next_logits(&vec![0, 1]).expect("forward");
    assert_eq!(logits.shape(), &vec![1, 3]);
    assert!(logits.data().iter().all(|value| value.is_finite()));
}

#[test]
fn causal_decoder_applies_qk_norm_when_present() {
    let base = decoder(test_weights(), default_config());
    let mut weights = test_weights();
    insert_qk_norm(&mut weights, 0, vec![2.0, 0.25], vec![0.25, 2.0]);
    let with_qk_norm = decoder(weights, default_config());

    let base_logits = base.next_logits(&vec![0, 1]).expect("forward");
    let qk_logits = with_qk_norm.next_logits(&vec![0, 1]).expect("forward");

    assert_ne!(base_logits.data(), qk_logits.data());
    assert!(qk_logits.data().iter().all(|value| value.is_finite()));
}

#[test]
fn causal_decoder_applies_attention_output_gate_when_enabled() {
    let config = CausalDecoderConfig { attn_output_gate: true, head_dim: Some(2), ..default_config() };
    let gated = decoder(gated_attention_weights(), config);
    let base = decoder(test_weights(), default_config());

    let gated_logits = gated.next_logits(&vec![0, 1]).expect("forward");
    let base_logits = base.next_logits(&vec![0, 1]).expect("forward");

    assert_ne!(gated_logits.data(), base_logits.data());
    assert!(gated_logits.data().iter().all(|value| value.is_finite()));
}

#[test]
fn causal_decoder_stacks_multiple_layer_counts() {
    for layer_count in [1_usize, 2, 3, 4, 5, 6] {
        let mut weights = test_weights();
        for layer in 1..layer_count {
            insert_attention_layer(&mut weights, layer);
        }
        let config = CausalDecoderConfig { num_hidden_layers: layer_count, ..default_config() };
        let model = decoder(weights, config);
        let logits = model.next_logits(&vec![0, 1]).expect("forward");

        assert_eq!(logits.shape(), &vec![1, 3]);
        assert!(logits.data().iter().all(|value| value.is_finite()));
    }
}

#[test]
fn cached_greedy_matches_full_sequence_for_multiple_layer_counts() {
    for layer_count in [1_usize, 2, 3, 4, 5, 6] {
        let mut weights = test_weights();
        for layer in 1..layer_count {
            insert_attention_layer(&mut weights, layer);
        }
        let config = CausalDecoderConfig { num_hidden_layers: layer_count, ..default_config() };
        let mut model = decoder(weights, config);

        let full = model.generate_greedy_full_with_options(&vec![0, 1], 4, &options()).expect("full");
        let cached = model.generate_greedy_cached_with_options(&vec![0, 1], 4, &options()).expect("cached");

        assert_eq!(cached, full, "layer_count={layer_count}");
    }
}

#[test]
fn hybrid_cached_greedy_matches_full_sequence_for_multiple_layer_counts() {
    for layer_count in [1_usize, 2, 3, 4, 5, 6] {
        let mut model = decoder(hybrid_weights(layer_count, 2), hybrid_config(layer_count));

        let full = model.generate_greedy_full_with_options(&vec![0, 1], 4, &options()).expect("full");
        let cached = model.generate_greedy_cached_with_options(&vec![0, 1], 4, &options()).expect("cached");

        assert_eq!(cached, full, "layer_count={layer_count}");
    }
}

#[test]
fn snapshot_prompt_state_greedy_matches_cold_prefill() {
    let mut model = decoder(test_weights(), default_config());
    let prompt = vec![0_usize, 1, 2, 1, 0];
    let options = options();
    let cold = model.generate_greedy_timed_with_options(&prompt, 4, &options).expect("cold").tokens;

    let mut state = model.prefill_prompt_state_uncached(&prompt[..2].to_vec()).expect("prefix");
    model.extend_prompt_state(&mut state, &prompt[2..].to_vec()).expect("suffix");
    let warm = model
        .generate_greedy_timed_from_prompt_state_with_options(state, 0, 4, &options)
        .expect("warm")
        .tokens;

    assert_eq!(warm, cold);
}

#[test]
fn hybrid_snapshot_prompt_state_greedy_matches_cold_prefill() {
    let mut model = decoder(hybrid_weights(4, 2), hybrid_config(4));
    let prompt = vec![0_usize, 1, 2, 1, 0, 2];
    let options = options();
    let cold = model.generate_greedy_timed_with_options(&prompt, 4, &options).expect("cold").tokens;

    let mut state = model.prefill_prompt_state_uncached(&prompt[..3].to_vec()).expect("prefix");
    model.extend_prompt_state(&mut state, &prompt[3..].to_vec()).expect("suffix");
    let warm = model
        .generate_greedy_timed_from_prompt_state_with_options(state, 0, 4, &options)
        .expect("warm")
        .tokens;

    assert_eq!(warm, cold);
}

#[test]
fn hybrid_cloned_prompt_state_metal_matches_cold_prefill() {
    let config = CausalDecoderConfig { head_dim: Some(2), ..hybrid_config(4) };
    let model = decoder(hybrid_weights(4, 2), config);
    let prompt = vec![0_usize, 1, 2, 1, 0, 2];
    let cold_state = model.prefill_prompt_state_uncached(&prompt).expect("cold");

    let prefix_state = model.prefill_prompt_state_uncached(&prompt[..3].to_vec()).expect("prefix");
    assert!(prefix_state.cache.layers.iter().any(|layer| !layer.recurrent.is_empty()));
    let snapshot = model.snapshot_prompt_state_metal(&prefix_state).expect("snapshot");
    assert!(snapshot.estimated_bytes() > 0);
    let mut warm_state = prefix_state.duplicate();
    for layer in warm_state.cache.layers.iter_mut() {
        layer.recurrent.clear();
    }
    let snapshot = model.copy_prompt_state_metal_snapshot(&snapshot).expect("copy");
    model.restore_prompt_state_metal(&mut warm_state, snapshot).expect("restore");
    model.extend_prompt_state(&mut warm_state, &prompt[3..].to_vec()).expect("suffix");

    assert_eq!(warm_state.final_state.data(), cold_state.final_state.data());
}

#[test]
fn hybrid_batched_prefill_matches_tokenwise_prefill_state() {
    let model = decoder(hybrid_weights(4, 2), hybrid_config(4)).model;
    let prompt = vec![0_usize, 1, 2, 1, 0, 2];

    let (mut tokenwise_cache, tokenwise_state) = model.prefill_cache_state_tokenwise(&prompt).expect("tokenwise");
    let (mut batched_cache, batched_state) = model.prefill_cache_state_batched(&prompt).expect("batched");

    assert_eq!(tokenwise_cache.position(), prompt.len());
    assert_eq!(batched_cache.position(), prompt.len());
    assert_close(tokenwise_state.data(), batched_state.data(), 1.0e-5);

    let tokenwise_next = model.next_final_state_cached(&mut tokenwise_cache, 1).expect("next");
    let batched_next = model.next_final_state_cached(&mut batched_cache, 1).expect("next");

    assert_close(tokenwise_next.data(), batched_next.data(), 1.0e-5);
}

#[test]
fn hybrid_chunked_batched_prefill_matches_tokenwise_prefill_state() {
    let model = decoder(hybrid_weights(5, 2), hybrid_config(5)).model;
    let prompt = vec![0_usize, 1, 2, 1, 0, 2, 2, 1];
    let (tokenwise_cache, tokenwise_state) = model.prefill_cache_state_tokenwise(&prompt).expect("tokenwise");

    for chunk_size in [1_usize, 2, 3, 5] {
        let (mut chunked_cache, chunked_state) =
            model.prefill_cache_state_batched_chunked(&prompt, chunk_size).expect("chunked");

        assert_eq!(chunked_cache.position(), prompt.len());
        assert_close(tokenwise_state.data(), chunked_state.data(), 1.0e-5);

        let mut tokenwise_next_cache = tokenwise_cache.duplicate();
        let tokenwise_next = model.next_final_state_cached(&mut tokenwise_next_cache, 1).expect("next");
        let chunked_next = model.next_final_state_cached(&mut chunked_cache, 1).expect("next");

        assert_close(tokenwise_next.data(), chunked_next.data(), 1.0e-5);
    }
}

#[test]
fn cached_next_logits_match_full_prefix_logits() {
    let model = decoder(test_weights(), default_config());
    let mut cache = model.model.empty_cache();
    let tokens = [0_usize, 1, 2];

    for prefix_len in 1..=3 {
        let prompt = tokens[..prefix_len].to_vec();
        let cached = model.next_logits_cached(&mut cache, prompt[prefix_len - 1]).expect("cached");
        let full = model.next_logits(&prompt).expect("full");

        assert_close(cached.data(), full.data(), 1.0e-5);
        assert_eq!(cache.position(), prefix_len);
        assert_eq!(cache.layer_count(), 1);
    }
}

#[test]
fn prefix_cache_selects_longest_append_prefix() {
    let model = decoder(test_weights(), default_config()).model;
    let entry = |tokens: Vec<usize>| PrefixCacheEntry {
        tokens,
        cache: model.empty_cache(),
        final_state: Tensor::row(vec![0.0]),
    };
    let entries = vec![entry(vec![1, 2]), entry(vec![1, 2, 3]), entry(vec![1])];

    assert_eq!(longest_prefix_entry_index(&entries, &vec![1, 2, 3, 4]), Some(1));
    assert_eq!(longest_prefix_entry_index(&entries, &vec![1, 9]), Some(2));
    assert_eq!(longest_prefix_entry_index(&entries, &vec![9]), None);
}

#[test]
fn prefix_cache_extends_append_suffix_with_batched_prefill() {
    let prefix = vec![0_usize, 1, 2];
    let prompt = vec![0_usize, 1, 2, 1, 0, 2, 2];

    let mut state_model = decoder(hybrid_weights(4, 2), hybrid_config(4));
    let _ = state_model.prefill_cache_state(&prefix).expect("prefix");
    let (cached_cache, cached_state) = state_model.prefill_cache_state(&prompt).expect("suffix");
    let (batched_cache, batched_state) = state_model.model.prefill_cache_state_batched(&prompt).expect("batched");

    assert_eq!(cached_cache.position(), prompt.len());
    assert_eq!(batched_cache.position(), prompt.len());
    assert_close(cached_state.data(), batched_state.data(), 1.0e-5);

    let mut token_model = decoder(hybrid_weights(4, 2), hybrid_config(4));
    let _ = token_model.prefill_cache_state(&prefix).expect("prefix");
    let cached = token_model.generate_greedy_cached_with_options(&prompt, 5, &options()).expect("cached");
    let full = token_model.generate_greedy_full_with_options(&prompt, 5, &options()).expect("full");

    assert_eq!(cached, full);
}

#[test]
fn cached_greedy_matches_full_sequence_with_grouped_query_attention() {
    let mut model = decoder(gqa_weights(), gqa_config());

    let full = model.generate_greedy_full_with_options(&vec![0, 1], 3, &options()).expect("full");
    let cached = model.generate_greedy_cached_with_options(&vec![0, 1], 3, &options()).expect("cached");

    assert_eq!(cached, full);
}

#[test]
fn cached_sampling_is_seed_deterministic() {
    let mut model = decoder(test_weights(), default_config());
    let options = GenerationOptions { temperature: 0.8, top_p: 1.0, seed: 123, ..options() };

    let left = model.generate_greedy_cached_with_options(&vec![0, 1], 4, &options).expect("draw");
    let right = model.generate_greedy_cached_with_options(&vec![0, 1], 4, &options).expect("draw");

    assert_eq!(left, right);
    assert_eq!(left.len(), 4);
}

#[test]
fn cached_decoder_stops_before_emitting_stop_token() {
    let mut model = decoder(test_weights(), default_config());
    let options = GenerationOptions { stop_token_ids: vec![0], ..options() };
    let generated = model.generate_greedy_cached_with_options(&vec![0], 4, &options).expect("greedy");
    assert!(generated.is_empty());
}

#[test]
fn cached_decoder_stops_after_emitting_stop_sequence() {
    let mut model = decoder(test_weights(), default_config());
    let options = GenerationOptions { stop_sequences: vec![vec![0, 0]], ..options() };
    let generated = model.generate_greedy_cached_with_options(&vec![0], 4, &options).expect("greedy");
    assert_eq!(generated, vec![0, 0]);
}

#[test]
fn causal_decoder_rejects_empty_prompt() {
    let mut model = decoder(test_weights(), default_config());
    let err = model.generate_greedy(&vec![], 1).expect_err("empty prompt");
    assert!(matches!(err, InferError::Dimension(_)));
}

#[test]
fn causal_decoder_stops_before_emitting_stop_token() {
    let mut model = decoder(test_weights(), default_config());
    let options = GenerationOptions { stop_token_ids: vec![0], ..options() };
    let generated = model.generate_greedy_with_options(&vec![0], 4, &options).expect("greedy");
    assert!(generated.is_empty());
}

#[test]
fn layer_overrides_follow_gemma3_sliding_pattern() {
    let config = CausalDecoderConfig {
        rope_theta: Some(1_000_000.0),
        rope_local_base_freq: Some(10_000.0),
        sliding_window: Some(512),
        sliding_window_pattern: Some(6),
        ..default_config()
    };
    for layer in [0_usize, 1, 4, 6, 10, 24] {
        assert_eq!(config.layer_rope_theta_override(layer), Some(10_000.0));
        assert_eq!(config.layer_sliding_window(layer), Some(512));
    }
    for layer in [5_usize, 11, 17, 23] {
        assert_eq!(config.layer_rope_theta_override(layer), None);
        assert_eq!(config.layer_sliding_window(layer), None);
    }
}

#[test]
fn layer_overrides_absent_without_sliding_pattern() {
    let config = default_config();
    for layer in 0..8 {
        assert_eq!(config.layer_rope_theta_override(layer), None);
        assert_eq!(config.layer_sliding_window(layer), None);
        assert_eq!(config.layer_rope_position_scale(layer), None);
    }
}

#[test]
fn layer_rope_position_scale_targets_global_layers_only() {
    let config = CausalDecoderConfig {
        rope_theta: Some(1_000_000.0),
        rope_local_base_freq: Some(10_000.0),
        rope_position_scale: Some(0.125),
        sliding_window: Some(1024),
        sliding_window_pattern: Some(6),
        ..default_config()
    };
    for layer in [0_usize, 1, 4, 6, 10, 24] {
        assert_eq!(config.layer_rope_position_scale(layer), None);
        assert_eq!(config.layer_rope_theta_override(layer), Some(10_000.0));
    }
    for layer in [5_usize, 11, 17, 23] {
        assert_eq!(config.layer_rope_position_scale(layer), Some(0.125));
        assert_eq!(config.layer_rope_theta_override(layer), None);
    }
    let uniform = CausalDecoderConfig { rope_position_scale: Some(0.25), ..default_config() };
    for layer in 0..8 {
        assert_eq!(uniform.layer_rope_position_scale(layer), Some(0.25));
    }
}

#[test]
fn gemma_layer_wiring_matches_manual_reference() {
    let post_attn = tensor(vec![2], vec![0.5, 1.5]);
    let pre_ffn = tensor(vec![2], vec![1.25, 0.75]);
    let post_ffn = tensor(vec![2], vec![2.0, 0.5]);
    let mut weights = test_weights();
    weights.insert("layers.0.post_attention_layernorm.weight".to_string(), post_attn.duplicate());
    weights.insert("layers.0.pre_feedforward_layernorm.weight".to_string(), pre_ffn.duplicate());
    weights.insert("layers.0.post_feedforward_layernorm.weight".to_string(), post_ffn.duplicate());
    for prefix in ["layers.0.mlp.gate_proj", "layers.0.mlp.up_proj", "layers.0.mlp.down_proj"] {
        weights.insert(format!("{prefix}.weight"), identity2());
    }
    let config =
        CausalDecoderConfig { embed_scale: Some(2.0), activation: Activation::GeluTanh, ..default_config() };
    let eps = config.rms_eps;
    let model = decoder(weights, config);
    let logits = model.next_logits(&vec![2]).expect("forward");

    let ones = tensor(vec![2], vec![1.0, 1.0]);
    let norm = |x: &Tensor<f32>, weight: &Tensor<f32>| rms_norm(&F32, x, weight, eps).expect("norm");
    let sum = |a: &Tensor<f32>, b: &Tensor<f32>| {
        tensor(vec![1, 2], a.data().iter().zip(b.data()).map(|(x, y)| x + y).collect())
    };
    let x = tensor(vec![1, 2], vec![2.0, 2.0]);
    let attn_out = norm(&x, &ones);
    let hidden = sum(&x, &norm(&attn_out, &post_attn));
    let ffn_in = norm(&hidden, &pre_ffn);
    let ffn_out = tensor(vec![1, 2], ffn_in.data().iter().map(|v| gelu_tanh(*v) * v).collect());
    let y = sum(&hidden, &norm(&ffn_out, &post_ffn));
    let final_row = norm(&y, &ones).as_row().expect("row");
    let lm_head = [[1.0_f32, 0.0], [-1.0, 0.0], [0.0, 1.0]];
    let expected: Vec<f32> =
        lm_head.iter().map(|row| row[0] * final_row[0] + row[1] * final_row[1]).collect();
    assert_close(&logits.as_row().expect("row"), &expected, 1.0e-6);
}

fn full_layout() -> AttentionLayout<f32> {
    AttentionLayout {
        num_attention_heads: 1,
        num_key_value_heads: 1,
        head_dim: 2,
        rope_dims: 2,
        attn_scalar: 2.0,
        sliding_window: None,
    }
}

#[test]
fn causal_attention_sliding_window_matches_truncated_context() {
    let windowed_layout = AttentionLayout { sliding_window: Some(2), ..full_layout() };
    let q = tensor(vec![4, 2], vec![1.0, 0.0, 0.5, 0.5, 0.0, 1.0, 1.0, 1.0]);
    let k = tensor(vec![4, 2], vec![0.5, 0.0, 1.0, 0.5, 0.25, 1.0, 0.0, 0.75]);
    let v = tensor(vec![4, 2], vec![1.0, 2.0, 3.0, 4.0, 5.0, 6.0, 7.0, 8.0]);
    let windowed = causal_attention(&F32, &q, &k, &v, &windowed_layout).expect("attention");

    let truncate = |tensor_in: &Tensor<f32>, start: usize, end: usize| {
        let mut data = Vec::new();
        for row in start..end {
            data.extend(tensor_in.row_slice(row).expect("row"));
        }
        tensor(vec![end - start, 2], data)
    };
    for pos in 0..4_usize {
        let start = (pos + 1).saturating_sub(2);
        let reference = causal_attention(
            &F32,
            &truncate(&q, start, pos + 1),
            &truncate(&k, start, pos + 1),
            &truncate(&v, start, pos + 1),
            &full_layout(),
        )
        .expect("attention");
        assert_close(
            &windowed.row_slice(pos).expect("row"),
            &reference.row_slice(pos - start).expect("row"),
            1.0e-6,
        );
    }
}

#[test]
fn cached_attention_sliding_window_matches_truncated_cache() {
    let windowed_layout = AttentionLayout { sliding_window: Some(3), ..full_layout() };
    let keys = [[0.5_f32, 0.0], [1.0, 0.5], [0.25, 1.0], [0.0, 0.75], [0.75, 0.25]];
    let values = [[1.0_f32, 2.0], [3.0, 4.0], [5.0, 6.0], [7.0, 8.0], [9.0, 10.0]];
    let row = |data: [f32; 2]| tensor(vec![1, 2], data.to_vec());
    let mut windowed_cache = LayerKvCache::new();
    for (k, v) in keys.iter().zip(values.iter()) {
        windowed_cache.append(&row(*k), &row(*v), 2).expect("append");
    }
    let mut truncated_cache = LayerKvCache::new();
    for (k, v) in keys.iter().zip(values.iter()).skip(2) {
        truncated_cache.append(&row(*k), &row(*v), 2).expect("append");
    }
    let q = row([1.0, 0.25]);
    let windowed = cached_attention_one(&F32, &q, &windowed_cache, &windowed_layout).expect("attention");
    let reference = cached_attention_one(&F32, &q, &truncated_cache, &full_layout()).expect("attention");
    assert_close(&windowed, &reference, 1.0e-6);
}

#[test]
fn attention_scale_uses_query_pre_attn_scalar() {
    let layout = AttentionLayout { attn_scalar: 8.0, ..full_layout() };
    let row = |data: [f32; 2]| tensor(vec![1, 2], data.to_vec());
    let mut cache = LayerKvCache::new();
    cache.append(&row([1.0, 0.0]), &row([1.0, 0.0]), 2).expect("append");
    cache.append(&row([0.0, 0.0]), &row([0.0, 1.0]), 2).expect("append");
    let out = cached_attention_one(&F32, &row([1.0, 0.0]), &cache, &layout).expect("attention");
    let p0 = 1.0 / (1.0 + (-1.0_f32 / 8.0_f32.sqrt()).exp());
    assert_close(&out, &[p0, 1.0 - p0], 1.0e-6);
}

fn rope(theta: f32, position_scale: f32) -> RopeParams<f32> {
    RopeParams { theta, frequency_dim: 4, position_scale }
}

#[test]
fn apply_rope_styles_match_mlx_reference() {
    let x = tensor(vec![1, 4], vec![1.0, 2.0, 3.0, 4.0]);
    let interleaved =
        apply_rope_heads_at(&F32, &x, 1, 4, 4, rope(10_000.0, 1.0), 1, RopeStyle::Interleaved).expect("rope");
    assert_close(&interleaved.as_row().expect("row"), &[-1.142_64, 1.922_08, 2.959_85, 4.029_8], 1.0e-4);
    let halves = apply_rope_heads_at(&F32, &x, 1, 4, 4, rope(10_000.0, 1.0), 1, RopeStyle::Halves).expect("rope");
    assert_close(&halves.as_row().expect("row"), &[-1.984_11, 1.959_9, 2.462_38, 4.019_8], 1.0e-4);
}

#[test]
fn apply_rope_halves_partial_rotates_inside_rope_dims() {
    let x = tensor(vec![1, 8], vec![1.0, 2.0, 3.0, 4.0, 5.0, 6.0, 7.0, 8.0]);
    let halves = apply_rope_heads_at(&F32, &x, 1, 8, 4, rope(10_000.0, 1.0), 1, RopeStyle::Halves).expect("rope");
    assert_close(
        &halves.as_row().expect("row"),
        &[-1.984_11, 1.959_9, 2.462_38, 4.019_8, 5.0, 6.0, 7.0, 8.0],
        1.0e-4,
    );
}

#[test]
fn apply_rope_position_scale_matches_mlx_reference() {
    let x = tensor(vec![1, 4], vec![1.0, 2.0, 3.0, 4.0]);
    let gemma_global = rope(1_000_000.0, 0.125);
    let halves = apply_rope_heads_at(&F32, &x, 1, 4, 4, gemma_global, 5, RopeStyle::Halves).expect("rope");
    assert_close(&halves.as_row().expect("row"), &[-0.944_329, 1.997_5, 3.017_987, 4.001_249], 1.0e-4);
    let interleaved =
        apply_rope_heads_at(&F32, &x, 1, 4, 4, gemma_global, 5, RopeStyle::Interleaved).expect("rope");
    assert_close(&interleaved.as_row().expect("row"), &[-0.359_231, 2.207_024, 2.997_5, 4.001_874], 1.0e-4);
    let halves = apply_rope_heads_at(&F32, &x, 1, 4, 4, rope(10_000.0, 0.125), 3, RopeStyle::Halves).expect("rope");
    assert_close(&halves.as_row().expect("row"), &[-0.168_310, 1.984_986, 3.157_795, 4.007_472], 1.0e-4);
}

#[test]
fn apply_rope_halves_partial_uses_rotary_slice_half_offset() {
    let x = tensor(vec![1, 8], vec![1.0, 2.0, 3.0, 4.0, 5.0, 6.0, 7.0, 8.0]);
    let out = apply_rope_heads_at(&F32, &x, 1, 8, 4, rope(10_000.0, 1.0), 1, RopeStyle::Halves).expect("rope");
    let angle0 = 1.0_f32;
    let angle1 = 1.0_f32 / 10_000.0_f32.powf(0.5);
    let expected = vec![
        1.0 * angle0.cos() - 3.0 * angle0.sin(),
        2.0 * angle1.cos() - 4.0 * angle1.sin(),
        1.0 * angle0.sin() + 3.0 * angle0.cos(),
        2.0 * angle1.sin() + 4.0 * angle1.cos(),
        5.0,
        6.0,
        7.0,
        8.0,
    ];
    assert_close(out.data(), &expected, 1.0e-6);
}

#[test]
fn rope_position_scale_one_is_bit_identical_to_raw_positions() {
    let x = tensor(vec![2, 4], vec![1.0, 2.0, 3.0, 4.0, -0.5, 0.25, 1.5, -2.0]);
    for style in [RopeStyle::Interleaved, RopeStyle::Halves] {
        let raw = apply_rope_heads_at(&F32, &x, 1, 4, 4, rope(1_000_000.0, 1.0), 7, style).expect("rope");
        let mut expected = x.data().to_vec();
        for pos in 0..2 {
            let position = (7 + pos) as f32;
            for pair in 0..2 {
                let exponent = (2 * pair) as f32 / 4.0;
                let angle = position / 1_000_000.0_f32.powf(exponent);
                let (cos, sin) = (angle.cos(), angle.sin());
                let (first_index, second_index) = match style {
                    RopeStyle::Interleaved => (pos * 4 + 2 * pair, pos * 4 + 2 * pair + 1),
                    RopeStyle::Halves => (pos * 4 + pair, pos * 4 + pair + 2),
                };
                let first = x.data()[first_index];
                let second = x.data()[second_index];
                expected[first_index] = first * cos - second * sin;
                expected[second_index] = first * sin + second * cos;
            }
        }
        assert_eq!(raw.data(), &expected, "style={style:?}");
    }
}

#[test]
fn fused_rms_rope_matches_two_step_for_both_styles() {
    let x = tensor(vec![2, 4], vec![0.5, -1.0, 2.0, 0.25, -0.75, 1.5, -2.0, 0.125]);
    let weight = tensor(vec![4], vec![1.5, 0.5, 1.0, 2.0]);
    for position_scale in [1.0_f32, 0.125] {
        let rope = rope(10_000.0, position_scale);
        for style in [RopeStyle::Interleaved, RopeStyle::Halves] {
            let fused =
                rms_norm_rope_heads_at(&F32, &x, 1, 4, 4, &weight, 1.0e-6, rope, 3, style).expect("fused");
            let normed = rms_norm_heads(&F32, &x, 1, 4, &weight, 1.0e-6).expect("norm");
            let two_step = apply_rope_heads_at(&F32, &normed, 1, 4, 4, rope, 3, style).expect("rope");
            assert_close(fused.data(), two_step.data(), 1.0e-6);
        }
    }
}

#[test]
fn attention_layout_wires_scale_and_window() {
    let mut tensors = TensorStore::new();
    for name in ["q_proj", "k_proj", "v_proj", "o_proj"] {
        tensors.insert(format!("layers.0.self_attn.{name}.weight"), DecoderTensor::Dense(identity2()));
    }
    let config = CausalDecoderConfig { head_dim: Some(2), rope_dims: Some(2), ..default_config() };
    let mut attention =
        full_attention_from_tensors(&config, &mut tensors, &"layers.0".to_string(), 0).expect("attention");

    attention.sliding_window = Some(512);
    let gemma_config =
        CausalDecoderConfig { head_dim: Some(2), query_pre_attn_scalar: Some(168.0), ..default_config() };
    let layout = attention_layout(&F32, &gemma_config, &attention, 2, 2, 2).expect("layout");
    assert_eq!(layout.attn_scalar, 168.0);
    assert_eq!(layout.sliding_window, Some(512));

    attention.sliding_window = None;
    let config = CausalDecoderConfig { head_dim: Some(2), ..default_config() };
    let layout = attention_layout(&F32, &config, &attention, 2, 2, 2).expect("layout");
    assert_eq!(layout.attn_scalar, 2.0);
    assert_eq!(layout.sliding_window, None);
}

#[test]
fn lightbatch_rejects_empty_prompt_list() {
    let mut model = tiny_model();
    let err = model.generate_greedy_lightbatch_with_options(&vec![], 8, &options()).expect_err("no prompts");
    assert!(matches!(err, InferError::Dimension(_)));
}

#[test]
fn lightbatch_zero_budget_returns_empty_streams() {
    let mut model = tiny_model();
    let outputs = model
        .generate_greedy_lightbatch_with_options(&vec![vec![0, 1], vec![1, 0]], 0, &options())
        .expect("no tokens asked for");
    assert_eq!(outputs.len(), 2);
    assert!(outputs.iter().all(|output| output.tokens.is_empty()));
}

#[test]
fn lightbatch_streams_match_solo_greedy() {
    let mut model = tiny_model();
    let options = options();
    let max_new = 24;
    let prompt_a = vec![0_usize, 1];
    let prompt_b = vec![1_usize, 0, 1];

    let solo_a = model.generate_greedy_cached_with_options(&prompt_a, max_new, &options).expect("solo");
    let solo_b = model.generate_greedy_cached_with_options(&prompt_b, max_new, &options).expect("solo");
    let batch = model
        .generate_greedy_lightbatch_with_options(&vec![prompt_a, prompt_b], max_new, &options)
        .expect("streams");

    assert_eq!(batch[0].tokens, solo_a);
    assert_eq!(batch[1].tokens, solo_b);
}

#[test]
fn lightbatch_streams_stop_independently() {
    let mut model = tiny_model();
    let max_new = 24;
    let prompt_a = vec![0_usize, 1];
    let prompt_b = vec![1_usize, 0, 1];
    let baseline = model
        .generate_greedy_lightbatch_with_options(&vec![prompt_a.clone(), prompt_b.clone()], max_new, &options())
        .expect("streams");
    let stop = baseline[0].tokens[2];
    let options = GenerationOptions { stop_token_ids: vec![stop], ..options() };
    let solo_a = model.generate_greedy_cached_with_options(&prompt_a, max_new, &options).expect("solo");
    let solo_b = model.generate_greedy_cached_with_options(&prompt_b, max_new, &options).expect("solo");
    let stopped = model
        .generate_greedy_lightbatch_with_options(&vec![prompt_a, prompt_b], max_new, &options)
        .expect("streams");
    assert_eq!(stopped[0].tokens, solo_a);
    assert_eq!(stopped[1].tokens, solo_b);
}

fn told(log: &TokenLog, stream: usize) -> Vec<usize> {
    log.tokens.iter().filter(|(s, _)| *s == stream).map(|(_, token)| *token).collect()
}

#[test]
fn lightbatch_streaming_callback_matches_outputs_with_per_stream_budgets() {
    let mut model = tiny_model();
    let options = options();
    let prompts = vec![vec![0_usize, 1], vec![1_usize, 0, 1]];
    let maxes = vec![3_usize, 5];
    let mut log = TokenLog::new();
    let outputs = model
        .generate_greedy_lightbatch_streaming_with_options(&prompts, &maxes, &options, &mut log)
        .expect("streams");

    assert_eq!(outputs[0].tokens, told(&log, 0));
    assert_eq!(outputs[1].tokens, told(&log, 1));
    assert!(outputs[0].tokens.len() <= 3);
    assert!(outputs[1].tokens.len() <= 5);
    let solo_a = model.generate_greedy_cached_with_options(&prompts[0], 3, &options).expect("solo");
    let solo_b = model.generate_greedy_cached_with_options(&prompts[1], 5, &options).expect("solo");
    assert_eq!(outputs[0].tokens, solo_a);
    assert_eq!(outputs[1].tokens, solo_b);
}

#[test]
fn lightbatch_background_stride_preserves_per_stream_outputs() {
    let mut model = tiny_model();
    let options = options();
    let prompts = vec![vec![0_usize, 1], vec![1_usize, 0, 1]];
    let maxes = vec![16_usize, 16];
    let baseline = model
        .lightbatch_generate(&prompts, &maxes, &options, 1, &mut TokenLog::new())
        .expect("streams");
    for stride in [2_u64, 3] {
        let strided = model
            .lightbatch_generate(&prompts, &maxes, &options, stride, &mut TokenLog::new())
            .expect("streams");
        assert_eq!(strided[0].tokens, baseline[0].tokens, "stride={stride}");
        assert_eq!(strided[1].tokens, baseline[1].tokens, "stride={stride}");
    }
}

#[test]
fn lightbatch_streaming_rejects_invalid_budgets() {
    let mut model = tiny_model();
    let options = options();
    let prompts = vec![vec![0_usize, 1], vec![1_usize]];
    let err = model
        .generate_greedy_lightbatch_streaming_with_options(&prompts, &vec![4], &options, &mut TokenLog::new())
        .expect_err("one budget for two prompts");
    assert!(matches!(err, InferError::Dimension(_)));
    let err = model
        .generate_greedy_lightbatch_streaming_with_options(&prompts, &vec![4, 0], &options, &mut TokenLog::new())
        .expect_err("no budget");
    assert!(matches!(err, InferError::Dimension(_)));
}

fn ctl(cap: usize) -> AdaptiveDepthController<f32> {
    AdaptiveDepthController::new(&F32, cap, 0.5, 0.5, 1_000)
}

#[test]
fn plan_stays_shallow_when_no_budget() {
    let mut c = ctl(2);
    assert_eq!(c.plan(&F32, 1), 1);
}

#[test]
fn plan_starts_deep_optimistic() {
    let mut c = ctl(2);
    assert_eq!(c.plan(&F32, 8), 2);
}

#[test]
fn ema_collapses_to_shallow_after_repeated_deep_rejections() {
    let mut c = ctl(2);
    for _ in 0..10 {
        let d = c.plan(&F32, 8);
        c.observe(&F32, d, 1);
    }
    assert_eq!(c.plan(&F32, 8), 1);
}

#[test]
fn ema_recovers_to_deep_in_easy_regime() {
    let mut c = ctl(2);
    for _ in 0..10 {
        let d = c.plan(&F32, 8);
        c.observe(&F32, d, 1);
    }
    assert_eq!(c.plan(&F32, 8), 1);
    for _ in 0..10 {
        c.observe(&F32, 2, 2);
    }
    assert_eq!(c.plan(&F32, 8), 2);
}

#[test]
fn probe_forces_deep_after_period() {
    let mut c = AdaptiveDepthController::new(&F32, 2, 0.5, 2.0, 3);
    assert_eq!(c.plan(&F32, 8), 1);
    assert_eq!(c.plan(&F32, 8), 1);
    assert_eq!(c.plan(&F32, 8), 2);
    assert_eq!(c.plan(&F32, 8), 1);
}

#[test]
fn observe_ignores_shallow_steps() {
    let mut c = ctl(2);
    let before = c.summary(&F32).ema_deep;
    c.observe(&F32, 1, 1);
    assert_eq!(c.summary(&F32).ema_deep, before);
    assert_eq!(c.summary(&F32).deep_steps, 0);
}

#[test]
fn summary_tracks_average_depth() {
    let mut c = ctl(2);
    c.plan(&F32, 8);
    c.plan(&F32, 8);
    let s = c.summary(&F32);
    assert_eq!(s.steps, 2);
    assert!((s.avg_depth - 2.0).abs() < 1e-6);
}

#[test]
fn cap_one_is_always_shallow() {
    let mut c = ctl(1);
    for _ in 0..5 {
        assert_eq!(c.plan(&F32, 8), 1);
    }
}

fn bare_facts() -> DeviceFacts {
    DeviceFacts { present: true, linear_layers: true, join_maps: false, joins: Vec::new(), head_joins: false, timed: false }
}

#[test]
fn resident_cache_clone_drops_metal() {
    let decoder = tiny_model();
    let model = &decoder.model;
    let (cache, _) = model.prefill_cache_state_tokenwise(&vec![0, 1]).expect("prefill");
    let cache = model.setup_resident_decode(cache, 16, false, true).expect("setup");
    assert!(cache.rooms.iter().any(|room| room.is_some()));
    let clone = cache.duplicate();
    assert!(clone.rooms.iter().all(|room| room.is_none()));
    assert!(cache.rooms.iter().any(|room| room.is_some()));
}

#[test]
fn resident_decode_state_matches_cpu_over_long_kv() {
    let decoder = tiny_model();
    let model = &decoder.model;
    let n = 320;
    let feed: Vec<usize> = (0..n).map(|i| i % 3).collect();
    let (mut cache_off, _) = model.prefill_cache_state_tokenwise(&vec![0, 1]).expect("prefill");
    let (cache_on, _) = model.prefill_cache_state_tokenwise(&vec![0, 1]).expect("prefill");
    let mut cache_on = model.setup_resident_decode(cache_on, n + 1, false, true).expect("setup");
    let mut max_abs = 0.0_f32;
    for &token in &feed {
        let off = model.next_final_state_cached(&mut cache_off, token).expect("decode");
        let on = cache_on.next_final_state_cached(model, token).expect("decode");
        assert_eq!(off.shape(), on.shape());
        for (a, b) in off.data().iter().zip(on.data()) {
            max_abs = max_abs.max((a - b).abs());
        }
    }
    assert!(max_abs <= 1.0e-4, "max_abs={max_abs:e} over {n} tokens");
}

fn greedy_resident_ab(model: &DecoderModel<F32>, prompt: &Vec<usize>, n: usize, resident: bool) -> Vec<usize> {
    let options = options();
    let mut sampler = TokenSampler::new(options.seed);
    let (mut cache, final_state) = model.prefill_cache_state_tokenwise(prompt).expect("prefill");
    let mut token = model.sample_token_from_state(&final_state, &options, &mut sampler).expect("token");
    let mut tokens = Vec::with_capacity(n);
    if resident {
        let mut cache = model.setup_resident_decode(cache, n + 1, false, true).expect("setup");
        for _ in 0..n {
            tokens.push(token);
            let state = cache.next_final_state_cached(model, token).expect("decode");
            token = model.sample_token_from_state(&state, &options, &mut sampler).expect("token");
        }
    } else {
        for _ in 0..n {
            tokens.push(token);
            let state = model.next_final_state_cached(&mut cache, token).expect("decode");
            token = model.sample_token_from_state(&state, &options, &mut sampler).expect("token");
        }
    }
    tokens
}

#[test]
fn resident_decode_greedy_tokens_match_cpu() {
    let decoder = tiny_model();
    for prompt in [vec![0_usize, 1], vec![1_usize, 0, 1]] {
        let n = 256;
        let off = greedy_resident_ab(&decoder.model, &prompt, n, false);
        let on = greedy_resident_ab(&decoder.model, &prompt, n, true);
        assert_eq!(off, on, "prompt {prompt:?}");
    }
}

#[test]
fn resident_full_precondition_rejects_model_without_moe() {
    let decoder = tiny_model();
    assert!(!decoder.model.supports_resident_full_decode(&bare_facts()));
}

#[test]
fn resident_sampling_predicates_route_default_and_readback() {
    let decoder = CausalDecoder::from_tensors(
        F32,
        store(gqa_weights()),
        gqa_config(),
        DecoderFlags { gpu_sampler: true, ..flags() },
    )
    .expect("weights fit");
    let model = &decoder.model;
    let default_sample = GenerationOptions { temperature: 0.7, top_p: 1.0, top_k: 0, ..options() };
    assert!(model.resident_sampling_supported(&default_sample));
    assert!(model.resident_sampling_on_device(&default_sample));

    let top_k64 = GenerationOptions { temperature: 0.7, top_p: 1.0, top_k: 64, ..options() };
    assert!(model.resident_sampling_supported(&top_k64));
    assert!(!model.resident_sampling_on_device(&top_k64));

    let nucleus = GenerationOptions { temperature: 0.7, top_p: 0.95, top_k: 0, ..options() };
    assert!(model.resident_sampling_supported(&nucleus));
    assert!(!model.resident_sampling_on_device(&nucleus));
}

#[test]
fn draws_on_a_device_are_refused_where_they_make_no_sense() {
    let decoder = CausalDecoder::from_tensors(
        F32,
        store(gqa_weights()),
        gqa_config(),
        DecoderFlags { gpu_sampler: true, ..flags() },
    )
    .expect("weights fit");
    let model = &decoder.model;
    for (temperature, top_p) in [(0.0, 1.0), (f32::INFINITY, 1.0), (f32::NAN, 1.0), (0.7, 0.0), (0.7, 1.5), (0.7, f32::NAN)] {
        let options = GenerationOptions { temperature, top_p, top_k: 0, ..options() };
        assert!(!model.resident_sampling_supported(&options), "{temperature} {top_p}");
        assert!(matches!(model.resident_sample_spec_for_solo(&options, 7).expect_err("no draw"), InferError::Config(_)));
    }
    let best32 = GenerationOptions { temperature: 0.7, top_p: 0.5, top_k: 32, ..options() };
    let spec = model.resident_sample_spec(&best32, 7).expect("on the device");
    assert!(spec.on_device);
    assert_eq!((spec.random, spec.params.top_k), (7, 32));
    let nucleus = GenerationOptions { temperature: 0.7, top_p: 0.95, top_k: 0, ..options() };
    assert!(matches!(model.resident_sample_spec(&nucleus, 7).expect_err("not there"), InferError::Config(_)));
    assert!(!model.resident_sample_spec_for_solo(&nucleus, 7).expect("read back").on_device);
}

#[test]
fn scratch_names_are_tagged_and_bounded() {
    assert_eq!(pipeline_scratch_namespace(0, 0).expect("name"), (1 << 63) | 1);
    assert_eq!(pipeline_scratch_namespace(5, 3).expect("name"), (1 << 63) | (5 << 8) | 4);
    assert!(pipeline_scratch_namespace(((1 << 63) - 1) >> 8, 254).is_ok());
    assert!(matches!(pipeline_scratch_namespace(0, 255).expect_err("slot"), InferError::Metal(_)));
    assert!(matches!(pipeline_scratch_namespace(1 << 55, 0).expect_err("base"), InferError::Metal(_)));
}

/// A hybrid decoder whose layers all have a dense block and whose full layers have norms.
fn dense_hybrid_weights() -> HashMap<String, Tensor<f32>> {
    let mut tensors = hybrid_weights(2, 2);
    insert_qk_norm(&mut tensors, 1, vec![1.0, 0.75], vec![0.5, 1.0]);
    for layer in 0..2 {
        tensors.insert(format!("layers.{layer}.post_attention_layernorm.weight"), tensor(vec![2], vec![1.0, 0.5]));
        for (name, data) in [
            ("gate_proj", vec![1.0, 0.25, -0.5, 1.0]),
            ("up_proj", vec![0.5, 1.0, 1.0, -0.25]),
            ("down_proj", vec![1.0, 0.0, 0.5, 1.0]),
        ] {
            tensors.insert(format!("layers.{layer}.mlp.{name}.weight"), tensor(vec![2, 2], data));
        }
    }
    tensors
}

fn dense_hybrid() -> CausalDecoder<F32> {
    decoder(dense_hybrid_weights(), CausalDecoderConfig { head_dim: Some(2), ..hybrid_config(2) })
}

fn dense(rows: usize, cols: usize, data: Vec<f32>) -> Linear<f32> {
    Linear { weight: LinearWeight::Dense(tensor(vec![rows, cols], data)), bias: None, in_dim: cols, out_dim: rows }
}

fn head_layer() -> MtpLayer<f32> {
    let mut tensors = HashMap::new();
    insert_attention_layer(&mut tensors, 0);
    insert_qk_norm(&mut tensors, 0, vec![1.0, 0.5], vec![1.0, 1.0]);
    let config = CausalDecoderConfig { head_dim: Some(2), ..default_config() };
    let attention =
        full_attention_from_tensors(&config, &mut store(tensors), &"layers.0".to_string(), 0).expect("attention");
    MtpLayer {
        input_norm: tensor(vec![2], vec![1.0, 1.0]),
        attention,
        post_attention_norm: tensor(vec![2], vec![1.0, 1.0]),
        mlp: FeedForward::Dense(GatedMlp {
            gate_proj: dense(2, 2, vec![1.0, 0.0, 0.5, 1.0]),
            up_proj: dense(2, 2, vec![1.0, 0.5, 0.0, 1.0]),
            down_proj: dense(2, 2, vec![0.5, 0.0, 0.0, 1.0]),
            activation: Activation::Silu,
        }),
    }
}

fn draft_head() -> MtpHead<f32> {
    MtpHead {
        pre_fc_norm_embedding: tensor(vec![2], vec![1.0, 0.5]),
        pre_fc_norm_hidden: tensor(vec![2], vec![0.5, 1.0]),
        fc: dense(2, 4, vec![1.0, 0.0, 0.5, 0.25, -0.5, 1.0, 0.0, 0.5]),
        layer: head_layer(),
        norm: tensor(vec![2], vec![1.0, 1.0]),
    }
}

/// A device that does on the host what it is told.
struct HostDevice<'a> {
    model: &'a DecoderModel<F32>,
    rows: Vec<(Spot, Vec<f32>)>,
    tokens: Vec<(Slot, usize)>,
    layers: Vec<LayerKvCache<f32>>,
    head: LayerKvCache<f32>,
    kept: Vec<((usize, usize), LayerKvCache<f32>)>,
    logits: Vec<f32>,
}

fn spot(place: Place, row: usize) -> Spot {
    Spot { place, row }
}

fn slot(place: TokenPlace, at: usize) -> Slot {
    Slot { place, at }
}

impl<'a> HostDevice<'a> {
    fn new(model: &'a DecoderModel<F32>, cache: &ResidentCache<f32>) -> Self {
        HostDevice {
            model,
            rows: Vec::new(),
            tokens: Vec::new(),
            layers: cache.cache.layers.iter().map(|layer| layer.duplicate()).collect(),
            head: LayerKvCache::new(),
            kept: Vec::new(),
            logits: Vec::new(),
        }
    }

    fn row(&self, at: Spot) -> Vec<f32> {
        self.rows.iter().rev().find(|(s, _)| *s == at).expect("row is there").1.clone()
    }

    fn set_row(&mut self, at: Spot, row: Vec<f32>) {
        self.rows.push((at, row));
    }

    fn token(&self, at: Slot) -> usize {
        self.tokens.iter().rev().find(|(s, _)| *s == at).expect("token is there").1
    }

    fn set_token(&mut self, at: Slot, token: usize) {
        self.tokens.push((at, token));
    }

    fn through(&mut self, layer: usize, position: usize, row: Vec<f32>) -> Vec<f32> {
        let x = Tensor::row(row);
        let out = forward_cached(&F32, &self.model.config, &self.model.layers[layer], &x, &mut self.layers[layer], position);
        out.expect("layer").data().clone()
    }

    fn norm(&self, weight: &Tensor<f32>, row: Vec<f32>) -> Vec<f32> {
        rms(&row, weight.data(), self.model.config.rms_eps)
    }

    fn run(&mut self, program: &[Command<f32>]) {
        for command in program {
            match *command {
                Command::Gather { token, to } => {
                    let row = self.model.embed_scaled(&vec![self.token(token)]).expect("token").data().clone();
                    self.set_row(to, row);
                }
                Command::Layer { layer, position, from, to, .. } => {
                    let out = self.through(layer, position, self.row(from));
                    self.set_row(to, out);
                }
                Command::LayerRows { layer, position, rows, from, to, kept, .. } => {
                    for r in 0..rows {
                        let out = self.through(layer, position + r, self.row(spot(from, r)));
                        self.set_row(spot(to, r), out);
                        if r < kept {
                            self.kept.push(((layer, r), self.layers[layer].duplicate()));
                        }
                    }
                }
                Command::Copy { from, to } => {
                    let row = self.row(from);
                    self.set_row(to, row);
                }
                Command::Norm { weight, from, to } => {
                    let head = self.model.mtp.as_ref();
                    let weight = match weight {
                        NormWeight::Final => &self.model.final_norm,
                        NormWeight::HeadEmbedding => &head.expect("head").pre_fc_norm_embedding,
                        NormWeight::HeadHidden => &head.expect("head").pre_fc_norm_hidden,
                        NormWeight::HeadOutput => &head.expect("head").norm,
                    };
                    let row = self.norm(weight, self.row(from));
                    self.set_row(to, row);
                }
                Command::NormRows { rows, from, to } => {
                    for r in 0..rows {
                        let row = self.norm(&self.model.final_norm, self.row(spot(from, r)));
                        self.set_row(spot(to, r), row);
                    }
                }
                Command::Join { first, second, to } => {
                    let mut row = self.row(first);
                    row.extend(self.row(second));
                    self.set_row(to, row);
                }
                Command::HeadMap { from, to } => {
                    let head = self.model.mtp.as_ref().expect("head");
                    let row = times(&head.fc.weight, &self.row(from));
                    self.set_row(to, row);
                }
                Command::HeadLayer { position, from, to } => {
                    let layer = head_layer();
                    let layer = DecoderLayer {
                        input_norm: layer.input_norm,
                        attention: AttentionBlock::Full(layer.attention),
                        post_attention_norm: Some(layer.post_attention_norm),
                        mlp: Some(layer.mlp),
                        parallel_moe: None,
                        pre_feedforward_norm: None,
                        post_feedforward_norm: None,
                        pre_feedforward_norm_2: None,
                        post_feedforward_norm_1: None,
                        post_feedforward_norm_2: None,
                        layer_scalar: None,
                    };
                    let x = Tensor::row(self.row(from));
                    let out = forward_cached(&F32, &self.model.config, &layer, &x, &mut self.head, position).expect("head");
                    self.set_row(to, out.data().clone());
                }
                Command::Pick { output, route, from, to, .. } => {
                    assert_eq!(route, DeviceRoute::Argmax);
                    let weight = match output {
                        OutputMap::Draft => self.model.mtp_draft_lm_head.as_ref().map(|head| &head.weight).unwrap_or(&self.model.lm_head.weight),
                        _ => &self.model.lm_head.weight,
                    };
                    let token = best_of(&times(weight, &self.row(from)));
                    self.set_token(to, token);
                }
                Command::ReadBack { from } => {
                    self.logits = times(&self.model.lm_head.weight, &self.row(from));
                }
            }
        }
    }
}

fn resident_hybrid(model: &DecoderModel<F32>, prompt: &Vec<usize>) -> (ResidentCache<f32>, Tensor<f32>) {
    let (cache, state) = model.prefill_cache_state_tokenwise(prompt).expect("prefill");
    let mut cache = model.setup_resident_decode(cache, 16, false, true).expect("setup");
    assert!(model.setup_resident_full_decode(&bare_facts(), &mut cache, 16, false).expect("setup"));
    (cache, state)
}

#[test]
fn token_program_does_what_the_decoder_does() {
    let decoder = dense_hybrid();
    let model = &decoder.model;
    let (mut cache, _) = resident_hybrid(model, &vec![0, 1]);
    let (mut host, _) = model.prefill_cache_state_tokenwise(&vec![0, 1]).expect("prefill");
    let mut device = HostDevice::new(model, &cache);
    let mut token = 2;
    for _ in 0..4 {
        let made = model.decode_token_resident(true, &mut cache, token).expect("program");
        device.set_row(spot(Place::HiddenA, 0), made.upload.expect("row"));
        device.run(&made.program);
        let state = model.next_final_state_cached(&mut host, token).expect("decode");
        assert_close(&device.row(spot(Place::FinalNormed, 0)), state.data(), 1.0e-6);
        token = device.token(slot(TokenPlace::Index, 0));
        let mut sampler = TokenSampler::new(0);
        assert_eq!(token, model.sample_token_from_state(&state, &options(), &mut sampler).expect("token"));
    }
    assert_eq!(cache.cache.position, 6);
    assert_eq!(host.position, 6);
    assert_close(&device.layers[1].keys, &host.layers[1].keys, 1.0e-6);
}

#[test]
fn token_program_is_refused_for_what_is_missing() {
    let decoder = dense_hybrid();
    let model = &decoder.model;
    let (mut cache, _) = resident_hybrid(model, &vec![0, 1]);
    assert!(matches!(model.decode_token_resident(false, &mut cache, 0), Err(InferError::Metal(_))));
    assert!(matches!(model.decode_token_resident(true, &mut cache, 9), Err(InferError::Dimension(_))));
    let late = model.enqueue_decode_token_resident(true, &mut cache, ResidentDecodeInput::Host(0), None, Some(400), None);
    assert!(matches!(late, Err(InferError::Metal(_))));
    let mut gone = cache.duplicate();
    assert!(matches!(model.decode_token_resident(true, &mut gone, 0), Err(InferError::Metal(_))));
    let mut roomless = ResidentCache { rooms: vec![None, None], ..cache };
    assert!(matches!(model.decode_token_resident(true, &mut roomless, 0), Err(InferError::Metal(_))));
    let thetaless = decoder_with(|config| config.rope_theta = None);
    let (mut cache, _) = resident_hybrid(&decoder.model, &vec![0, 1]);
    assert!(matches!(thetaless.model.decode_token_resident(true, &mut cache, 0), Err(InferError::Config(_))));
    let sizeless = decoder_with(|config| config.linear_num_key_heads = None);
    assert!(matches!(sizeless.model.decode_token_resident(true, &mut cache, 0), Err(InferError::Config(_))));
    let huge = decoder_with(|config| config.linear_num_key_heads = Some(usize::MAX));
    assert!(matches!(huge.model.decode_token_resident(true, &mut cache, 0), Err(InferError::Shape(_))));
    assert_eq!(cache.cache.position, 2);
}

fn decoder_with(change: impl Fn(&mut CausalDecoderConfig<f32>)) -> CausalDecoder<F32> {
    let mut decoder = dense_hybrid();
    change(&mut decoder.model.config);
    decoder
}

fn verify_request() -> VerifyRequest {
    VerifyRequest { emit_argmax: true, capture_linear: true, moe_rows: false }
}

#[test]
fn tokens_at_once_leave_what_tokens_in_turn_leave() {
    let decoder = dense_hybrid();
    let model = &decoder.model;
    let tokens = vec![2_usize, 0, 1];
    let ids = vec![1_usize, 0];
    let (mut cache, _) = resident_hybrid(model, &vec![0, 1]);
    let mut device = HostDevice::new(model, &cache);
    let made = model
        .next_final_states_resident_verify(true, &mut cache, &tokens, verify_request(), &ids)
        .expect("program")
        .expect("decoder stands there");
    assert!(made.batched);
    for r in 0..3 {
        device.set_row(spot(Place::BatchA, r), made.uploads.row_slice(r).expect("row"));
    }
    device.run(&made.program);
    assert_eq!(cache.cache.position, 5);

    let (mut host, _) = model.prefill_cache_state_tokenwise(&vec![0, 1]).expect("prefill");
    for (r, &token) in tokens.iter().enumerate() {
        let (state, read) = model.next_final_state_with_layer_capture(&mut host, token, &ids).expect("decode");
        assert_close(&device.row(spot(Place::FinalStates, r)), state.data(), 1.0e-6);
        let mut captured = device.row(spot(Place::Captured { slot: 0, token: r }, 0));
        captured.extend(device.row(spot(Place::Captured { slot: 1, token: r }, 0)));
        assert_close(&captured, read.data(), 1.0e-6);
        let best = best_of(&times(&model.lm_head.weight, state.data()));
        assert_eq!(device.token(slot(TokenPlace::Targets, r)), best);
        if r < 2 {
            let kept = &device.kept.iter().find(|(key, _)| *key == (0, r)).expect("kept").1;
            assert_close(&kept.recurrent, &host.layers[0].recurrent, 1.0e-6);
        }
    }
    let mut back = device.layers[1].duplicate();
    back.truncate(4).expect("cut");
    let (mut shorter, _) = model.prefill_cache_state_tokenwise(&vec![0, 1]).expect("prefill");
    for token in [2, 0] {
        model.next_final_state_cached(&mut shorter, token).expect("decode");
    }
    assert_close(&back.keys, &shorter.layers[1].keys, 1.0e-6);
    assert_close(&device.kept[1].1.recurrent, &shorter.layers[0].recurrent, 1.0e-6);
}

#[test]
fn one_token_is_checked_in_turn() {
    let decoder = dense_hybrid();
    let model = &decoder.model;
    let (mut cache, _) = resident_hybrid(model, &vec![0, 1]);
    let mut device = HostDevice::new(model, &cache);
    let made = model
        .next_final_states_resident_verify(true, &mut cache, &vec![2], verify_request(), &vec![0])
        .expect("program")
        .expect("decoder stands there");
    assert!(!made.batched);
    device.set_row(spot(Place::Input(0), 0), made.uploads.row_slice(0).expect("row"));
    device.run(&made.program);
    let (mut host, _) = model.prefill_cache_state_tokenwise(&vec![0, 1]).expect("prefill");
    let (state, read) = model.next_final_state_with_layer_capture(&mut host, 2, &vec![0]).expect("decode");
    assert_close(&device.row(spot(Place::FinalStates, 0)), state.data(), 1.0e-6);
    assert_close(&device.row(spot(Place::Captured { slot: 0, token: 0 }, 0)), read.data(), 1.0e-6);
    assert!(device.kept.is_empty());
    assert!(model.next_final_states_resident_verify(true, &mut cache, &vec![], verify_request(), &vec![]).expect("nothing").is_none());
    assert!(model.next_final_states_resident_verify(false, &mut cache, &vec![0], verify_request(), &vec![]).expect("no device").is_none());
    assert!(matches!(
        model.next_final_states_resident_verify(true, &mut cache, &vec![9], verify_request(), &vec![]),
        Err(InferError::Dimension(_))
    ));
}

#[test]
fn row_handed_over_goes_through_the_layers() {
    let decoder = dense_hybrid();
    let model = &decoder.model;
    let (mut cache, _) = resident_hybrid(model, &vec![0, 1]);
    let mut device = HostDevice::new(model, &cache);
    let row = model.embed_scaled(&vec![2]).expect("token");
    let program = model.next_resident_embedding_step(true, &mut cache, &row, false).expect("program").expect("there");
    device.set_row(spot(Place::HiddenA, 0), row.data().clone());
    device.run(&program);
    let (mut host, _) = model.prefill_cache_state_tokenwise(&vec![0, 1]).expect("prefill");
    let state = model.next_final_state_cached(&mut host, 2).expect("decode");
    assert_close(&device.row(spot(Place::FinalNormed, 0)), state.data(), 1.0e-6);
    let named = model.next_resident_embedding_step(true, &mut cache, &row, true).expect("program").expect("there");
    assert!(matches!(named.last(), Some(Command::Pick { output: OutputMap::Named, .. })));
    let wide = tensor(vec![1, 3], vec![0.0; 3]);
    assert!(matches!(model.next_resident_embedding_step(true, &mut cache, &wide, true), Err(InferError::Dimension(_))));
    assert!(model.next_resident_embedding_step(false, &mut cache, &row, true).expect("no device").is_none());
}

fn drafting_hybrid() -> CausalDecoder<F32> {
    let mut decoder = dense_hybrid();
    decoder.model.mtp = Some(draft_head());
    decoder
}

#[test]
fn drafts_on_a_device_are_the_drafts_of_the_head() {
    let decoder = drafting_hybrid();
    let model = &decoder.model;
    let (mut cache, state) = resident_hybrid(model, &vec![0, 1]);
    let mut device = HostDevice::new(model, &cache);
    let row = model.start_mtp_resident_draft(&mut cache, &state, None).expect("start").expect("head stands there");
    device.set_row(spot(Place::HeadA, 0), row);
    let made = model.next_mtp_drafts_resident(true, &mut cache, 2, 3, 0).expect("program").expect("there");
    device.set_token(slot(TokenPlace::HeadIndex, 0), made.token as usize);
    device.run(&made.program);
    let mut head = LayerKvCache::new();
    let mut hidden = state.duplicate();
    let mut token = 2;
    for i in 0..3 {
        hidden = model.mtp_forward_post_hidden(&hidden, token, i, &mut head).expect("head");
        token = best_of(&times(&model.lm_head.weight, hidden.data()));
        assert_eq!(device.token(slot(TokenPlace::Drafts, i)), token);
    }
    assert_close(&device.head.keys, &head.keys, 1.0e-6);
    let arena = cache.arena.as_ref().expect("arena").head.expect("head");
    assert_eq!(arena.room.len, 3);
    assert!(!arena.current_is_a);
    assert!(matches!(model.next_mtp_drafts_resident(true, &mut cache, 2, 99, 0), Err(InferError::Dimension(_))));
    assert!(model.next_mtp_drafts_resident(true, &mut cache, 2, 0, 0).expect("none").expect("none").program.is_empty());
    assert!(model.next_mtp_drafts_resident(false, &mut cache, 2, 1, 0).expect("no device").is_none());
    assert!(matches!(model.next_mtp_draft_resident(false, &mut cache, 2, 3), Err(InferError::Metal(_))));
    let one = model.next_mtp_draft_resident(true, &mut cache, token, 3).expect("program");
    device.set_token(slot(TokenPlace::HeadIndex, 0), one.token as usize);
    device.run(&one.program);
    hidden = model.mtp_forward_post_hidden(&hidden, token, 3, &mut head).expect("head");
    token = best_of(&times(&model.lm_head.weight, hidden.data()));
    assert_eq!(device.token(slot(TokenPlace::HeadIndex, 0)), token);
}

#[test]
fn history_on_a_device_is_the_history_of_the_head() {
    let decoder = drafting_hybrid();
    let model = &decoder.model;
    let (mut cache, state) = resident_hybrid(model, &vec![0, 1]);
    let mut device = HostDevice::new(model, &cache);
    let other = tensor(vec![1, 2], vec![0.5, -0.25]);
    let entries = vec![(state.duplicate(), 1_usize), (other.duplicate(), 2)];
    let made = model.append_mtp_resident_history_steps(true, &mut cache, &entries, 0).expect("program").expect("there");
    for (i, (row, token)) in made.states.iter().zip(&made.tokens).enumerate() {
        device.set_row(spot(Place::History, i), row.clone());
        device.set_token(slot(TokenPlace::Drafts, i), *token as usize);
    }
    device.run(&made.program);
    let mut head = LayerKvCache::new();
    model.remember(&mut head, &entries).expect("history");
    assert_close(&device.head.keys, &head.keys, 1.0e-6);
    assert_close(&device.head.values, &head.values, 1.0e-6);
    assert_eq!(cache.arena.as_ref().expect("arena").head.expect("head").room.len, 2);

    model.truncate_mtp_resident_history(&mut cache, 1).expect("cut");
    assert!(matches!(model.truncate_mtp_resident_history(&mut cache, 2), Err(InferError::Dimension(_))));
    model.seed_mtp_resident_history(&mut cache, &head).expect("seed");
    assert_eq!(cache.arena.as_ref().expect("arena").head.expect("head").room.len, 2);
    let wrong = vec![(tensor(vec![1, 3], vec![0.0; 3]), 1_usize)];
    assert!(matches!(model.append_mtp_resident_history_steps(true, &mut cache, &wrong, 2), Err(InferError::Dimension(_))));
    assert!(model.append_mtp_resident_history_steps(true, &mut cache, &vec![], 2).expect("nothing").is_none());
    let mut gone = cache.duplicate();
    assert!(matches!(model.append_mtp_resident_history_steps(true, &mut gone, &entries, 0), Err(InferError::Metal(_))));
}

/// Greedy tokens and states from a prompt on.
fn greedy_from(model: &DecoderModel<F32>, prompt: &Vec<usize>, first: usize, n: usize) -> Vec<usize> {
    let (mut cache, _) = model.prefill_cache_state_tokenwise(prompt).expect("prefill");
    let mut tokens = vec![first];
    for _ in 0..n {
        let state = model.next_final_state_cached(&mut cache, *tokens.last().expect("token")).expect("decode");
        tokens.push(best_of(&times(&model.lm_head.weight, state.data())));
    }
    tokens
}

#[test]
fn rounds_of_two_drafts_give_the_greedy_tokens() {
    let decoder = drafting_hybrid();
    let model = &decoder.model;
    let prompt = vec![0_usize, 1];
    let (mut cache, state) = resident_hybrid(model, &prompt);
    let mut device = HostDevice::new(model, &cache);
    let mut state = state;
    let mut tokens = vec![2_usize];
    let mut history = 0;
    let mut pending: Vec<usize> = Vec::new();
    while tokens.len() < 8 {
        let primary = *tokens.last().expect("token");
        let made =
            model.next_mtp_spec_two_resident(true, &mut cache, &state, primary, history).expect("program").expect("there");
        for (i, token) in pending.iter().enumerate() {
            device.set_token(slot(TokenPlace::Appends, i), *token);
        }
        device.head.truncate(history - pending.len()).expect("cut");
        device.set_row(spot(Place::HeadA, 0), made.state);
        device.set_token(slot(TokenPlace::HeadIndex, 0), made.token as usize);
        device.set_row(spot(Place::HiddenA, 0), made.embedding);
        device.run(&made.program);
        let drafts = (device.token(slot(TokenPlace::Drafts, 0)), device.token(slot(TokenPlace::Drafts, 1)));
        let targets = (
            device.token(slot(TokenPlace::Targets, 0)),
            device.token(slot(TokenPlace::Targets, 1)),
            device.token(slot(TokenPlace::Targets, 2)),
        );
        let decision = model.finish_spec_two(&mut cache, drafts, targets, history, &vec![]);
        let rows = decision.committed_rows;
        if rows < 3 {
            device.layers[1].truncate(cache.cache.position).expect("cut");
            device.layers[0] =
                device.kept.iter().rev().find(|(key, _)| *key == (0, rows - 1)).expect("kept").1.duplicate();
        }
        tokens.extend([drafts.0, drafts.1].iter().take(rows - 1));
        tokens.push(decision.pending);
        state = Tensor::row(device.row(spot(Place::FinalStates, rows - 1)));
        pending = [targets.0, targets.1][..rows - 1].to_vec();
        history += rows;
    }
    let n = tokens.len() - 1;
    assert_eq!(tokens, greedy_from(model, &prompt, 2, n));
    assert_eq!(cache.cache.position, 2 + n);
}

#[test]
fn rounds_of_one_draft_give_the_greedy_tokens() {
    for fresh in [true, false] {
        let decoder = drafting_hybrid();
        let model = &decoder.model;
        let prompt = vec![0_usize, 1];
        let (mut cache, mut state) = resident_hybrid(model, &prompt);
        let mut device = HostDevice::new(model, &cache);
        let mut tokens = vec![2_usize];
        let mut history = 0;
        while tokens.len() < 8 {
            let primary = *tokens.last().expect("token");
            let made = model
                .next_mtp_spec_one_resident(true, &mut cache, &state, primary, history, fresh)
                .expect("program")
                .expect("there");
            device.head.truncate(if fresh { 0 } else { history }).expect("cut");
            device.set_row(spot(Place::HeadA, 0), made.state);
            device.set_token(slot(TokenPlace::HeadIndex, 0), made.token as usize);
            device.set_row(spot(Place::HiddenA, 0), made.embedding);
            device.run(&made.program);
            let draft = device.token(slot(TokenPlace::Drafts, 0));
            let target = device.token(slot(TokenPlace::Targets, 0));
            let kept = model.finish_spec_one(&mut cache, draft, target, history, fresh, &vec![]);
            tokens.push(target);
            if kept {
                tokens.push(device.token(slot(TokenPlace::Targets, 1)));
                state = Tensor::row(device.row(spot(Place::FinalStates, 1)));
                history += 2;
            } else {
                device.layers[1].truncate(cache.cache.position).expect("cut");
                device.layers[0] = device.kept.iter().rev().find(|(key, _)| *key == (0, 0)).expect("kept").1.duplicate();
                state = Tensor::row(device.row(spot(Place::FinalStates, 0)));
                history += 1;
            }
        }
        let n = tokens.len() - 1;
        assert_eq!(tokens, greedy_from(model, &prompt, 2, n), "fresh={fresh}");
    }
}

#[test]
fn drafts_are_kept_up_to_the_first_that_fails_or_stops() {
    let none = decide_two((5, 6), (4, 6, 7), &vec![]);
    assert_eq!((none.accepted, none.checked, none.accepted_generated, none.committed_rows), ((false, false), 1, 0, 1));
    assert_eq!((none.pending, none.bonus_verified), (4, false));
    let one = decide_two((5, 6), (5, 8, 7), &vec![]);
    assert_eq!((one.accepted, one.checked, one.accepted_generated, one.committed_rows), ((true, false), 2, 1, 2));
    assert_eq!((one.pending, one.bonus_verified), (8, false));
    let both = decide_two((5, 6), (5, 6, 7), &vec![]);
    assert_eq!((both.accepted, both.checked, both.accepted_generated, both.committed_rows), ((true, true), 2, 2, 3));
    assert_eq!((both.pending, both.bonus_verified), (7, true));
    let stopped = decide_two((5, 6), (5, 6, 7), &vec![5]);
    assert_eq!((stopped.accepted, stopped.checked, stopped.committed_rows, stopped.pending), ((true, false), 1, 1, 5));
    let later = decide_two((5, 6), (5, 6, 7), &vec![6]);
    assert_eq!((later.accepted, later.checked, later.committed_rows, later.pending), ((true, true), 2, 2, 6));
}

#[test]
fn rounds_are_refused_for_what_is_missing() {
    let decoder = drafting_hybrid();
    let model = &decoder.model;
    let (mut cache, state) = resident_hybrid(model, &vec![0, 1]);
    assert!(model.next_mtp_spec_one_resident(false, &mut cache, &state, 0, 0, true).expect("no device").is_none());
    let wide = tensor(vec![1, 3], vec![0.0; 3]);
    assert!(matches!(model.next_mtp_spec_one_resident(true, &mut cache, &wide, 0, 0, true), Err(InferError::Dimension(_))));
    assert!(matches!(model.next_mtp_spec_one_resident(true, &mut cache, &state, 0, 5, false), Err(InferError::Dimension(_))));
    assert!(matches!(model.next_mtp_spec_two_resident(true, &mut cache, &state, 0, 5), Err(InferError::Dimension(_))));
    assert!(matches!(
        model.next_mtp_spec_two_resident(true, &mut cache, &state, usize::MAX, 0),
        Err(InferError::Dimension(_))
    ));
    let mut gone = cache.duplicate();
    assert!(model.next_mtp_spec_two_resident(true, &mut gone, &state, 0, 0).expect("not there").is_none());
    let (mut headless, _) = resident_hybrid(&dense_hybrid().model, &vec![0, 1]);
    assert!(model.next_mtp_spec_two_resident(true, &mut headless, &state, 0, 0).expect("no head").is_none());
}

#[test]
fn tokens_in_flight_come_out_in_order_and_stop() {
    let decoder = dense_hybrid();
    let model = &decoder.model;
    for (stop, max) in [(vec![], 7_usize), (vec![1_usize], 7), (vec![], 1), (vec![2], 3)] {
        let (mut cache, _) = resident_hybrid(model, &vec![0, 1]);
        assert!(model.can_pipeline(&cache));
        let options = GenerationOptions { stop_token_ids: stop.clone(), ..options() };
        let mut sampler = TokenSampler::new(options.seed);
        let mut device = HostDevice::new(model, &cache);
        let mut pipeline = Pipeline::new(&options, 2, max);
        let mut waiting: Vec<usize> = Vec::new();
        let mut most = 0;
        loop {
            match pipeline.action() {
                PipelineAction::Enqueue => {
                    let at = pipeline.enqueued % 4;
                    let made =
                        model.enqueue_pipeline_step(true, &mut cache, &mut pipeline, &options, &mut sampler).expect("step");
                    assert_eq!(made.upload.is_some(), pipeline.enqueued == 1);
                    assert_eq!(made.namespace, cache.arena.as_ref().expect("arena").namespace);
                    if let Some(row) = made.upload {
                        assert_eq!(row, model.embed_scaled(&vec![2]).expect("token").data().clone());
                        device.set_row(spot(Place::HiddenA, 0), row);
                    }
                    device.run(&made.program);
                    waiting.push(device.token(slot(TokenPlace::Ring, at)));
                    most = most.max(waiting.len());
                }
                PipelineAction::Wait => {
                    let token = waiting.remove(0);
                    pipeline.answer(&options, token);
                }
                PipelineAction::Finish => break,
            }
        }
        let mut expected = greedy_from(model, &vec![0, 1], 2, max - 1);
        if let Some(end) = expected.iter().position(|token| stop.contains(token)) {
            expected.truncate(end);
        }
        assert_eq!(pipeline.tokens, expected, "stop={stop:?} max={max}");
        assert!(most <= 4);
    }
}

#[test]
fn duo_is_refused_without_shared_experts() {
    let decoder = dense_hybrid();
    let model = &decoder.model;
    let (mut first, _) = resident_hybrid(model, &vec![0, 1]);
    let (mut second, _) = resident_hybrid(model, &vec![1, 0]);
    let facts = DuoFacts { present: true, lm_head: true, layers: vec![true, true] };
    assert!(!model.supports_resident_duo(&first, &facts));
    let out = model.decode_tokens_resident_duo(false, &mut first, &mut second, (0, 1), (None, None));
    assert!(matches!(out, Err(InferError::Metal(_))));
    let out = model.decode_tokens_resident_duo(true, &mut first, &mut second, (0, 9), (None, None));
    assert!(matches!(out, Err(InferError::Dimension(_))));
    let out = model.decode_tokens_resident_duo(true, &mut first, &mut second, (0, 1), (None, None));
    assert!(matches!(out, Err(InferError::Config(_))));
    let mut gone = second.duplicate();
    let out = model.decode_tokens_resident_duo(true, &mut first, &mut gone, (0, 1), (None, None));
    assert!(matches!(out, Err(InferError::Metal(_))));
    assert_eq!((first.cache.position, second.cache.position), (2, 2));
}

#[test]
fn duo_takes_each_stream_at_its_own_position() {
    let decoder = dense_hybrid();
    let model = &decoder.model;
    let (mut first, _) = resident_hybrid(model, &vec![0, 1]);
    let (mut second, _) = resident_hybrid(model, &vec![1, 0, 2]);
    let kinds = vec![
        causal_decoder::device::ResidentLayerKind::LinearMoe,
        causal_decoder::device::ResidentLayerKind::FullMoe,
    ];
    first.arena.as_mut().expect("arena").kinds = kinds.clone();
    first.arena.as_mut().expect("arena").namespace = 5;
    second.arena.as_mut().expect("arena").namespace = 9;
    let made =
        model.decode_tokens_resident_duo(true, &mut first, &mut second, (2, 1), (None, None)).expect("program");
    assert_eq!(made.program.len(), 4);
    assert_eq!(made.namespaces, (5, 9));
    assert!(matches!(made.program[1], DuoCommand::Layer { layer: 1, first_at: 2, second_at: 3, .. }));
    assert!(matches!(made.program[2], DuoCommand::Norm));
    assert_eq!(made.uploads.row_slice(1).expect("row"), model.embed_scaled(&vec![1]).expect("token").data().clone());
    assert_eq!((first.cache.position, second.cache.position), (3, 4));
}

#[test]
fn xray_of_the_decoder_itself_finds_no_distance() {
    let decoder = dense_hybrid();
    let model = &decoder.model;
    let prompt = vec![0_usize, 1];
    let start = decoder.resident_linear_xray_start(&prompt, &options()).expect("start");
    let mut cache = start.cache;
    let ids = vec![0_usize, 1];
    let (states, hidden) =
        model.next_final_states_batched_with_layer_capture(&mut cache, &vec![start.input_token], &ids).expect("rows");
    let trace = DeviceTrace { state: states.data().clone(), hidden: hidden.data().clone(), probe: None };
    let report = decoder.resident_linear_xray(&prompt, &options(), &trace).expect("report");
    assert_eq!(report.input_token, start.input_token);
    assert_eq!(report.reference_token, report.resident_token);
    assert!(report.probe.is_none());
    assert_eq!(report.layer_diffs.len(), 2);
    assert!(report.layer_diffs.iter().all(|diff| diff.distance.max_abs == 0.0 && diff.distance.mean_abs == 0.0));
    assert!(!report.layer_diffs[0].full && report.layer_diffs[1].full);

    let mut moved = hidden.data().clone();
    moved[2] += 0.5;
    let trace = DeviceTrace { state: states.data().clone(), hidden: moved, probe: None };
    let report = decoder.resident_linear_xray(&prompt, &options(), &trace).expect("report");
    let Distance { max_abs, mean_abs } = report.layer_diffs[1].distance;
    assert!((max_abs - 0.5).abs() < 1.0e-6 && (mean_abs - 0.25).abs() < 1.0e-6);

    let short = DeviceTrace { state: vec![0.0], hidden: Vec::new(), probe: None };
    assert!(decoder.resident_linear_xray(&prompt, &options(), &short).is_err());
    assert!(matches!(decoder.resident_linear_xray_start(&vec![], &options()), Err(InferError::Dimension(_))));
    let hot = GenerationOptions { temperature: 0.7, ..options() };
    assert!(matches!(decoder.resident_linear_xray_start(&prompt, &hot), Err(InferError::Config(_))));
}

#[test]
fn prompt_on_a_device_is_put_together_from_its_layers() {
    let decoder = dense_hybrid();
    let model = &decoder.model;
    assert!(model.can_prefill_resident(PrefillFacts { enabled: true, dense: true }));
    assert!(!model.can_prefill_resident(PrefillFacts { enabled: true, dense: false }));
    assert!(!model.can_prefill_resident(PrefillFacts { enabled: false, dense: true }));
    let interleaved = decoder_with(|config| config.rope_style = RopeStyle::Interleaved);
    assert!(!interleaved.model.can_prefill_resident(PrefillFacts { enabled: true, dense: true }));

    let states = vec![
        PrefillLayerState::Linear { state: vec![0.5, 0.25] },
        PrefillLayerState::Full { key: tensor(vec![2, 2], vec![1.0; 4]), value: tensor(vec![2, 2], vec![2.0; 4]) },
    ];
    let (cache, state) = model.prefill_cache_state_metal_resident(&states, &vec![3.0, 4.0], 2).expect("prompt");
    assert_eq!(cache.position, 2);
    assert_eq!(cache.layers[0].recurrent, vec![0.5, 0.25]);
    assert_eq!((cache.layers[1].len(), cache.layers[1].values.len()), (2, 4));
    assert_close(state.data(), &[3.0 / 12.5_f32.sqrt(), 4.0 / 12.5_f32.sqrt()], 1.0e-6);
    assert!(matches!(model.prefill_cache_state_metal_resident(&vec![], &vec![3.0, 4.0], 2), Err(InferError::Dimension(_))));
}

/// A file of a draft head, under the names that its own file gives.
fn head_file(prefix: &str) -> Vec<u8> {
    let mut tensors = HashMap::new();
    let mut insert = |name: &str, shape: Vec<usize>, data: Vec<f32>| {
        tensors.insert(format!("{prefix}{name}"), tensor(shape, data));
    };
    insert("pre_fc_norm_embedding.weight", vec![2], vec![1.0, 0.5]);
    insert("pre_fc_norm_hidden.weight", vec![2], vec![0.5, 1.0]);
    insert("fc.weight", vec![2, 4], vec![1.0, 0.0, 0.5, 0.25, -0.5, 1.0, 0.0, 0.5]);
    insert("norm.weight", vec![2], vec![1.0, 1.0]);
    insert("layers.0.input_layernorm.weight", vec![2], vec![1.0, 1.0]);
    insert("layers.0.post_attention_layernorm.weight", vec![2], vec![1.0, 1.0]);
    for name in ["q_proj", "k_proj", "v_proj", "o_proj"] {
        insert(&format!("layers.0.self_attn.{name}.weight"), vec![2, 2], vec![1.0, 0.0, 0.0, 1.0]);
    }
    insert("layers.0.self_attn.q_norm.weight", vec![2], vec![1.0, 0.5]);
    insert("layers.0.self_attn.k_norm.weight", vec![2], vec![1.0, 1.0]);
    insert("layers.0.mlp.gate_proj.weight", vec![2, 2], vec![1.0, 0.0, 0.5, 1.0]);
    insert("layers.0.mlp.up_proj.weight", vec![2, 2], vec![1.0, 0.5, 0.0, 1.0]);
    insert("layers.0.mlp.down_proj.weight", vec![2, 2], vec![0.5, 0.0, 0.0, 1.0]);
    file_of(tensors)
}

#[test]
fn draft_head_is_read_from_its_file_under_any_prefix() {
    for prefix in ["", "mtp.", "language_model.mtp."] {
        let head = MtpHead::from_sidecar(&F32, &head_file(prefix)).expect("head");
        assert_eq!(head.fc.out_dim, 2);
        assert_eq!(head.fc.in_dim, 4);
        assert_eq!(weight_rows(&head.fc.weight)[1], vec![-0.5, 1.0, 0.0, 0.5]);
        assert_eq!(head.layer.attention.q_norm.as_ref().expect("norm").data(), &vec![1.0, 0.5]);
    }
    let missing = file_of(test_weights());
    assert!(MtpHead::from_sidecar(&F32, &missing).is_err());
    assert!(matches!(MtpHead::from_sidecar(&F32, &vec![1, 2, 3]), Err(InferError::Config(_))));
}

#[test]
fn drafts_change_no_token() {
    let options = options();
    let prompt = vec![0_usize, 1];
    let mut plain = dense_hybrid();
    let solo = plain.generate_greedy_cached_with_options(&prompt, 12, &options).expect("solo");
    for count in [1_usize, 2, 3] {
        let mut decoder = dense_hybrid();
        decoder.model.mtp = Some(MtpHead::from_sidecar(&F32, &head_file("mtp.")).expect("head"));
        let output = decoder.generate_greedy_mtp_batched_with_options(&prompt, 12, &options, count).expect("drafts");
        assert_eq!(output.tokens, solo, "drafts={count}");
        assert_eq!(output.stats.accepted + output.stats.rejected, output.stats.proposed);
    }
}

#[test]
fn draft_output_map_is_read_from_its_file() {
    for name in ["_mtplx_draft_lm_head.weight", "lm_head.weight", "weight"] {
        let mut tensors = HashMap::new();
        tensors.insert(name.to_string(), tensor(vec![3, 2], vec![1.0, 0.0, -1.0, 0.0, 0.0, 1.0]));
        let file = file_of(tensors);
        let head = load_mtp_draft_lm_head(&F32, &file, 2).expect("map");
        assert_eq!(weight_rows(&head.weight)[1], vec![-1.0, 0.0]);
        assert!(load_mtp_draft_lm_head(&F32, &file, 3).is_err());
    }
    assert!(matches!(load_mtp_draft_lm_head(&F32, &vec![0; 4], 2), Err(InferError::Config(_))));
}

#[test]
fn missing_weights_are_named() {
    let mut weights = test_weights();
    weights.remove("layers.0.self_attn.k_proj.weight");
    match CausalDecoder::from_tensors(F32, store(weights), default_config(), flags()) {
        Err(InferError::MissingWeight(name)) => assert_eq!(name, "layers.0.self_attn.k_proj.weight"),
        _ => panic!("weight is missing"),
    }
    let mut weights = test_weights();
    weights.insert("layers.0.self_attn.k_proj.weight".to_string(), tensor(vec![2], vec![1.0, 1.0]));
    assert!(CausalDecoder::from_tensors(F32, store(weights), default_config(), flags()).is_err());
}

#[test]
fn progress_on_a_device_goes_back_to_the_tokens_that_stay() {
    let decoder = dense_hybrid();
    let model = &decoder.model;
    let (mut cache, _) = resident_hybrid(model, &vec![0, 1]);
    model
        .next_final_states_resident_verify(true, &mut cache, &vec![2, 0, 1], verify_request(), &vec![])
        .expect("program")
        .expect("decoder stands there");
    assert_eq!(cache.cache.position, 5);
    let captures = ResidentVerifyCaptures { base_position: 2, linear: vec![Some(2), None] };
    assert!(matches!(model.restore_mtp_resident_progress(true, &mut cache, &captures, 0), Err(InferError::Dimension(_))));
    assert_eq!(cache.cache.position, 5);
    let layers = model.restore_mtp_resident_progress(true, &mut cache, &captures, 2).expect("back");
    assert_eq!(layers, vec![0]);
    assert_eq!(cache.cache.position, 4);
    assert_eq!(cache.rooms[1].expect("room").len, 4);
    assert!(model.restore_mtp_resident_progress(false, &mut cache, &captures, 1).expect("back").is_empty());
    assert!(matches!(model.restore_mtp_resident_progress(true, &mut cache, &captures, 9), Err(InferError::Dimension(_))));
    let many = ResidentVerifyCaptures { base_position: 2, linear: vec![Some(2), Some(2), Some(2)] };
    assert_eq!(model.restore_mtp_resident_progress(true, &mut cache, &many, 1).expect("back"), vec![0]);
    cache.cache.layers[0].recurrent.clear();
    assert!(model.restore_mtp_resident_progress(true, &mut cache, &many, 1).expect("back").is_empty());
    let late = ResidentVerifyCaptures { base_position: usize::MAX, linear: vec![] };
    assert!(matches!(model.restore_mtp_resident_progress(true, &mut cache, &late, 1), Err(InferError::Dimension(_))));
}

#[test]
fn decoder_that_lacks_a_part_is_refused_as_such() {
    let mut halved = dense_hybrid();
    halved.model.layers[0].mlp = None;
    let mut ended = Vec::new();
    for result in [halved.generate_greedy(&vec![0, 1], 2), dense_hybrid().generate_greedy(&vec![0, 9], 2)] {
        ended.push(result.expect_err("no generation"));
    }
    assert!(matches!(ended[0], InferError::Config(_)));
    assert!(matches!(ended[1], InferError::Dimension(_)));
    let mut headless = dense_hybrid();
    assert!(matches!(
        headless.generate_greedy_mtp_batched_with_options(&vec![0, 1], 2, &options(), 1),
        Err(InferError::Config(_))
    ));
    let mut heady = drafting_hybrid();
    assert!(matches!(
        heady.generate_greedy_mtp_batched_with_options(&vec![0, 1], 2, &options(), 0),
        Err(InferError::Config(_))
    ));
    assert!(matches!(
        heady.generate_greedy_mtp_batched_with_options(&vec![], 2, &options(), 1),
        Err(InferError::Dimension(_))
    ));
}

#[test]
fn snapshots_go_back_only_to_as_many_layers() {
    let decoder = dense_hybrid();
    let mut state = decoder.prefill_prompt_state_uncached(&vec![0, 1]).expect("prompt");
    let snapshot = decoder.snapshot_prompt_state_metal(&state).expect("snapshot");
    let before = state.cache.layers[0].recurrent.clone();
    decoder.extend_prompt_state(&mut state, &vec![2]).expect("suffix");
    assert_ne!(state.cache.layers[0].recurrent, before);
    let copy = decoder.copy_prompt_state_metal_snapshot(&snapshot).expect("copy");
    decoder.restore_prompt_state_metal(&mut state, copy).expect("restored");
    assert_eq!(state.cache.layers[0].recurrent, before);
    state.cache.layers.pop();
    assert!(matches!(decoder.restore_prompt_state_metal(&mut state, snapshot), Err(InferError::Dimension(_))));
}

#[test]
fn generation_ends_where_no_more_is_wanted() {
    let mut decoder = dense_hybrid();
    let options = options();
    let whole = decoder.generate_greedy_with_options(&vec![0, 1], 6, &options).expect("tokens");
    for wanted in [1_usize, 3, 6, 9] {
        let state = decoder.prefill_prompt_state_uncached(&vec![0, 1]).expect("prompt");
        let mut run = decoder.model.open_generation(state.cache, &state.final_state, 0, 6, &options).expect("start");
        let mut heard = Vec::new();
        while let Some(token) = run.offer(&options) {
            heard.push(token);
            decoder.model.answer_generation(&mut run, &options, heard.len() < wanted).expect("step");
        }
        assert_eq!(heard, whole[..wanted.min(6)].to_vec());
        assert_eq!(run.tokens, heard);
        assert_eq!(run.done, heard.len() - 1);
    }
    let state = decoder.prefill_prompt_state_uncached(&vec![0, 1]).expect("prompt");
    let mut run = decoder.model.open_generation(state.cache, &state.final_state, 0, 0, &options).expect("start");
    assert_eq!(run.offer(&options), None);
}

#[test]
fn prompts_seen_before_leave_what_prompts_seen_first_leave() {
    let mut decoder = dense_hybrid();
    let (cold, cold_logits) = decoder.prefill_cache_uncached(&vec![0, 1, 2]).expect("prompt");
    decoder.prefill_cache(&vec![0, 1]).expect("prompt");
    let (warm, warm_logits) = decoder.prefill_cache(&vec![0, 1, 2]).expect("prompt");
    assert_eq!(warm.position, cold.position);
    assert_close(warm_logits.data(), cold_logits.data(), 1.0e-6);
    assert!(matches!(decoder.prefill_cache(&vec![]), Err(InferError::Dimension(_))));
    let state = decoder.prefill_prompt_state_uncached(&vec![0]).expect("prompt");
    assert_eq!(decoder.talker_greedy_token(&state.final_state, 1, 2).expect("asked"), None);
}

#[test]
fn plain_reference_of_a_draft_model_gives_the_greedy_tokens() {
    let mut model = decoder(test_weights(), default_config());
    let draft = tiny_draft();
    let prompt = vec![0_usize, 1];
    let greedy = model.generate_greedy_cached_with_options(&prompt, 5, &options()).expect("greedy");
    let plain = model.generate_greedy_dflash_reference_with_options(&prompt, 5, &options(), &draft).expect("plain");
    assert_eq!(plain, greedy);
    let hot = GenerationOptions { temperature: 0.7, ..options() };
    assert!(matches!(
        model.generate_greedy_dflash_reference_with_options(&prompt, 5, &hot, &draft),
        Err(InferError::Config(_))
    ));
    assert!(matches!(
        model.generate_greedy_dflash_batched_with_options(&prompt, 5, &options(), &draft, 0),
        Err(InferError::Config(_))
    ));
    assert!(matches!(
        model.generate_greedy_dflash_batched_with_options(&vec![], 5, &options(), &draft, 1),
        Err(InferError::Dimension(_))
    ));
}

#[test]
fn experts_are_split_one_by_one() {
    let kind = |cell: f32| vec![LinearWeight::Dense(tensor(vec![2, 2], vec![cell; 4])), LinearWeight::Dense(tensor(vec![2, 2], vec![-cell; 4]))];
    let experts = split_experts(kind(1.0), kind(2.0), kind(3.0), 2).expect("experts");
    assert_eq!(experts.len(), 2);
    assert_eq!(weight_rows(&experts[1].up_proj.weight)[0], vec![-2.0, -2.0]);
    assert!(matches!(split_experts(kind(1.0), kind(2.0), kind(3.0), 3), Err(InferError::Dimension(_))));
}

fn fresh_run(history_len: usize) -> ResidentRun {
    ResidentRun { generated: vec![9], stats: SpeculativeStats::new(2), pending: 9, history_len }
}

#[test]
fn rounds_of_one_are_counted_as_on_the_host() {
    let stopping = GenerationOptions { stop_token_ids: vec![7], ..options() };
    let mut run = fresh_run(3);
    assert_eq!(run.settle_one(&stopping, 5, 4, 8, 10, false).expect("round"), 0);
    assert_eq!((run.generated.clone(), run.pending, run.history_len), (vec![9], 4, 4));
    assert_eq!((run.stats.verifications, run.stats.proposed, run.stats.accepted, run.stats.rejected), (1, 1, 0, 1));
    let mut run = fresh_run(3);
    assert_eq!(run.settle_one(&stopping, 5, 5, 8, 10, false).expect("round"), 1);
    assert_eq!((run.generated.clone(), run.pending, run.history_len), (vec![9, 5], 8, 5));
    assert_eq!((run.stats.verifications, run.stats.accepted), (2, 1));
    let mut run = fresh_run(3);
    assert_eq!(run.settle_one(&stopping, 5, 5, 8, 2, true).expect("round"), 1);
    assert_eq!((run.generated.clone(), run.pending, run.history_len, run.stats.verifications), (vec![9, 5], 9, 3, 1));
    let mut run = fresh_run(3);
    assert_eq!(run.settle_one(&stopping, 7, 7, 8, 10, false).expect("round"), 0);
    assert_eq!((run.generated.clone(), run.pending, run.stats.accepted), (vec![9], 7, 1));
    let mut run = fresh_run(usize::MAX - 1);
    assert!(matches!(run.settle_one(&stopping, 5, 5, 8, 10, false), Err(InferError::Dimension(_))));
    assert_eq!(run.stats.proposed, 0);
}

#[test]
fn rounds_of_two_are_counted_as_on_the_host() {
    let mut run = fresh_run(0);
    assert_eq!(run.settle_two(&options(), (5, 6), (5, 6, 8), 10).expect("round"), 2);
    assert_eq!((run.generated.clone(), run.pending, run.history_len), (vec![9, 5, 6], 8, 3));
    assert_eq!((run.stats.verifications, run.stats.proposed, run.stats.accepted), (3, 2, 2));
    assert_eq!(run.stats.accepted_by_position, vec![1, 1]);
    let mut run = fresh_run(0);
    assert_eq!(run.settle_two(&options(), (5, 6), (5, 4, 8), 10).expect("round"), 1);
    assert_eq!((run.generated.clone(), run.pending, run.history_len), (vec![9, 5], 4, 2));
    assert_eq!((run.stats.verifications, run.stats.accepted, run.stats.rejected), (2, 1, 1));
    let mut run = fresh_run(usize::MAX);
    assert!(matches!(run.settle_two(&options(), (5, 6), (4, 4, 8), 10), Err(InferError::Dimension(_))));
}

#[test]
fn two_streams_take_their_turns_together() {
    assert_eq!(duo_round(true, true, true), DuoRound::Both);
    assert_eq!(duo_round(false, true, true), DuoRound::First);
    assert_eq!(duo_round(true, false, true), DuoRound::Second);
    assert_eq!(duo_round(false, false, true), DuoRound::Neither);
    let decoder = CausalDecoder::from_tensors(
        F32,
        store(dense_hybrid_weights()),
        CausalDecoderConfig { head_dim: Some(2), ..hybrid_config(2) },
        DecoderFlags { gpu_sampler: true, ..flags() },
    )
    .expect("weights fit");
    let model = &decoder.model;
    let (mut first, mut second) = (TokenSampler::new(1), TokenSampler::new(2));
    let (a, b) = (first.random, second.random);
    assert!(model.duo_samples(&options(), &mut first, &mut second).expect("best").0.is_none());
    assert_eq!((first.random, second.random), (a, b));
    let drawn = GenerationOptions { temperature: 0.7, top_p: 1.0, top_k: 0, ..options() };
    let (x, y) = model.duo_samples(&drawn, &mut first, &mut second).expect("drawn");
    assert_eq!((x.expect("first").random, y.expect("second").random), (a, b));
    assert_eq!((first.random, second.random), (next_random(a), next_random(b)));
    let nucleus = GenerationOptions { temperature: 0.7, top_p: 0.95, top_k: 0, ..options() };
    assert!(matches!(model.duo_samples(&nucleus, &mut first, &mut second), Err(InferError::Config(_))));
    let (left, _) = resident_hybrid(model, &vec![0, 1]);
    let (right, _) = resident_hybrid(model, &vec![1]);
    let facts = DuoFacts { present: true, lm_head: true, layers: vec![true, true] };
    assert!(!model.is_duo(2, true, &options(), &left, &right, &facts));
}

/// [`F32`] that fails where a token is chosen in the named way.
#[derive(Clone, Copy)]
struct Faulty(&'static str);

impl Faulty {
    fn fail<T>(&self, at: &str, made: Result<T, InferError>) -> Result<T, InferError> {
        if self.0 == at {
            Err(InferError::Metal("out of order"))
        } else {
            made
        }
    }
}

impl Kernel for Faulty {
    type Cell = f32;

    fn constant(&self, which: Constant) -> f32 {
        F32.constant(which)
    }

    fn unary(&self, op: Unary, a: f32) -> f32 {
        F32.unary(op, a)
    }

    fn binary(&self, op: Binary, a: f32, b: f32) -> f32 {
        F32.binary(op, a, b)
    }

    fn count(&self, n: usize) -> f32 {
        F32.count(n)
    }

    fn at_most(&self, a: f32, b: f32) -> bool {
        F32.at_most(a, b)
    }

    fn activate(&self, activation: Activation, a: f32) -> f32 {
        F32.activate(activation, a)
    }

    fn project(&self, weight: &LinearWeight<f32>, row: &Vec<f32>) -> Vec<f32> {
        F32.project(weight, row)
    }

    fn lookup(&self, table: &LinearWeight<f32>, token: usize) -> Vec<f32> {
        F32.lookup(table, token)
    }

    fn recur(
        &self,
        weights: &LinearAttentionWeights<f32>,
        config: LinearAttentionConfig,
        state: &Vec<f32>,
        row: &Vec<f32>,
    ) -> (Vec<f32>, Vec<f32>) {
        F32.recur(weights, config, state, row)
    }

    fn mix_experts(&self, moe: &MoeMlp<f32>, row: &Vec<f32>) -> Vec<f32> {
        F32.mix_experts(moe, row)
    }

    fn argmax(&self, logits: &Vec<f32>) -> Result<usize, InferError> {
        self.fail("argmax", F32.argmax(logits))
    }

    fn draw(&self, logits: &Vec<f32>, params: SamplingParams<f32>, random: u64) -> Result<(usize, u64), InferError> {
        self.fail("draw", F32.draw(logits, params, random))
    }

    fn distribution(&self, logits: &Vec<f32>, params: SamplingParams<f32>) -> Result<Vec<f32>, InferError> {
        self.fail("distribution", F32.distribution(logits, params))
    }

    fn draw_from(&self, distribution: &Vec<f32>, random: u64) -> Result<(usize, u64), InferError> {
        self.fail("draw_from", F32.draw_from(distribution, random))
    }

    fn speculate(&self, target: &Vec<f32>, draft: &Vec<f32>, token: usize, random: u64) -> Result<(usize, bool, u64), InferError> {
        self.fail("speculate", F32.speculate(target, draft, token, random))
    }

    fn mask(&self, accepted: &Vec<usize>, logits: &Vec<f32>) -> Result<Vec<f32>, InferError> {
        self.fail("mask", F32.mask(accepted, logits))
    }

    fn accept(&self, accepted: &Vec<usize>, token: usize) -> Result<(), InferError> {
        self.fail("accept", F32.accept(accepted, token))
    }

    fn device_token(
        &self,
        _route: DeviceRoute,
        head: &LinearWeight<f32>,
        state: &Vec<f32>,
        _params: SamplingParams<f32>,
        _random: u64,
    ) -> Result<Option<usize>, InferError> {
        let best = F32.argmax(&times(head, state))?;
        self.fail("device", Ok(Some(best)))
    }

    fn device_talker(&self, head: &LinearWeight<f32>, state: &Vec<f32>, suppress_start: usize, eos: usize) -> Result<Option<usize>, InferError> {
        let mut logits = times(head, state);
        for (token, logit) in logits.iter_mut().enumerate() {
            if token >= suppress_start && token != eos {
                *logit = f32::NEG_INFINITY;
            }
        }
        self.fail("device", F32.argmax(&logits).map(Some))
    }

    fn advance(&self, random: u64) -> u64 {
        F32.advance(random)
    }

    fn draft_context(&self, draft: &DraftModel<f32>, captured: &Vec<f32>) -> Vec<f32> {
        F32.draft_context(draft, captured)
    }

    fn draft_states(&self, draft: &DraftModel<f32>, embeddings: &Vec<f32>, context: &Vec<f32>) -> Vec<f32> {
        F32.draft_states(draft, embeddings, context)
    }

    fn decode(&self, format: &String, bytes: &Vec<u8>) -> Option<Vec<f32>> {
        F32.decode(format, bytes)
    }

    fn nanoseconds(&self) -> u64 {
        F32.nanoseconds()
    }
}

fn faulty(at: &'static str, flags: DecoderFlags) -> CausalDecoder<Faulty> {
    CausalDecoder::from_tensors(Faulty(at), store(gqa_weights()), gqa_config(), flags).expect("weights fit")
}

#[test]
fn failures_of_the_kernel_come_out() {
    let prompt = vec![0_usize, 1];
    let drawn = GenerationOptions { temperature: 0.8, ..options() };
    let held = GenerationOptions { guided: true, ..options() };
    let on_device = DecoderFlags { gpu_argmax: true, ..flags() };
    let cases = [
        ("argmax", options(), flags()),
        ("draw", drawn, flags()),
        ("mask", GenerationOptions { guided: true, ..options() }, flags()),
        ("accept", held, flags()),
        ("device", options(), on_device),
    ];
    for (at, options, flags) in cases {
        let mut sound = faulty("", flags);
        assert_eq!(sound.generate_greedy_with_options(&prompt, 3, &options).expect("tokens").len(), 3, "{at}");
        let mut decoder = faulty(at, flags);
        assert!(matches!(decoder.generate_greedy_with_options(&prompt, 3, &options), Err(InferError::Metal(_))), "{at}");
        let streams = decoder.generate_greedy_lightbatch_with_options(&vec![prompt.clone()], 3, &options);
        assert!(matches!(streams, Err(InferError::Metal(_))), "{at}");
        assert!(decoder.generate_greedy_with_options(&prompt, 0, &options).expect("nothing asked").is_empty(), "{at}");
    }
    let state = faulty("", flags()).prefill_prompt_state_uncached(&prompt).expect("prompt").final_state;
    assert!(matches!(faulty("device", flags()).talker_greedy_token(&state, 3, 0), Err(InferError::Metal(_))));
    let best = faulty("", flags()).talker_greedy_token(&state, 1, 2).expect("asked").expect("a device");
    assert!(best == 0 || best == 2);
    let whole = faulty("argmax", flags()).generate_greedy_full_with_options(&prompt, 3, &options());
    assert!(matches!(whole, Err(InferError::Metal(_))));
}

#[test]
fn failures_of_drawn_guesses_come_out() {
    let prompt = vec![0_usize, 1];
    let options = GenerationOptions { temperature: 0.8, seed: 5, ..options() };
    for at in ["", "distribution", "draw_from", "speculate"] {
        let mut decoder =
            CausalDecoder::from_tensors(Faulty(at), store(dense_hybrid_weights()), dense_hybrid().model.config, flags()).expect("weights fit");
        decoder.model.mtp = Some(MtpHead::from_sidecar(&F32, &head_file("mtp.")).expect("head"));
        let made = decoder.generate_greedy_mtp_batched_with_options(&prompt, 4, &options, 2);
        if at.is_empty() {
            assert_eq!(made.expect("tokens").tokens.len(), 4);
        } else {
            assert!(matches!(made, Err(InferError::Metal(_))), "{at}");
        }
    }
}

#[test]
fn lightbatch_refuses_empty_prompts_whatever_the_budget() {
    for max_new in [0_usize, 3] {
        let mut model = tiny_model();
        for prompts in [vec![], vec![vec![]], vec![vec![0, 1], vec![]]] {
            let made = model.generate_greedy_lightbatch_with_options(&prompts, max_new, &options());
            assert!(matches!(made, Err(InferError::Dimension(_))), "{prompts:?} {max_new}");
        }
        assert_eq!(model.prefix_cache.entries.len(), 0);
    }
    let mut log = TokenLog::new();
    let mut model = tiny_model();
    let made = model.generate_greedy_lightbatch_streaming_with_options(&vec![vec![0, 1], vec![]], &vec![2, 2], &options(), &mut log);
    assert!(matches!(made, Err(InferError::Dimension(_))));
    assert!(log.tokens.is_empty());
}

#[test]
fn nothing_asked_takes_no_time() {
    let mut model = tiny_model();
    let timed = model.generate_greedy_timed_with_options(&vec![0, 1], 0, &options()).expect("nothing asked");
    assert!(timed.tokens.is_empty());
    assert_eq!((timed.timings.prefill, timed.timings.decode, timed.timings.decode_tokens), (0, 0, 0));
    let state = model.prefill_prompt_state_uncached(&vec![0, 1]).expect("prompt");
    let from = model.generate_greedy_timed_from_prompt_state_with_options(state, 7, 0, &options()).expect("nothing asked");
    assert_eq!((from.timings.prefill, from.timings.decode, from.timings.decode_tokens), (7, 0, 0));
}

#[test]
fn draft_models_that_do_not_fit_are_refused_by_kind() {
    let model = decoder(test_weights(), default_config());
    let refused = |draft: &DraftModel<f32>| {
        let drafted = model.generate_greedy_dflash_batched_with_options(&vec![0, 1], 3, &options(), draft, 1).expect_err("no fit");
        let plain = model.generate_greedy_dflash_reference_with_options(&vec![0, 1], 3, &options(), draft).expect_err("no fit");
        (drafted, plain)
    };
    let wide = DraftModel { hidden_size: 3, ..tiny_draft() };
    assert!(matches!(refused(&wide), (InferError::Dimension(_), InferError::Dimension(_))));
    let blind = DraftModel { target_layer_ids: vec![], ..tiny_draft() };
    assert!(matches!(refused(&blind), (InferError::Config(_), InferError::Config(_))));
    let twice = DraftModel { target_layer_ids: vec![0, 0], ..tiny_draft() };
    assert!(matches!(refused(&twice), (InferError::Config(_), InferError::Config(_))));
}

#[test]
fn prompt_of_another_decoder_stays_as_it_was() {
    let one = decoder(hybrid_weights(2, 2), hybrid_config(2));
    let other = decoder(hybrid_weights(4, 2), hybrid_config(4));
    let mut state = one.prefill_prompt_state_uncached(&vec![0, 1]).expect("prompt");
    let before = state.duplicate();
    assert!(matches!(other.extend_prompt_state(&mut state, &vec![2]), Err(InferError::Dimension(_))));
    assert_eq!(state.cache.position, before.cache.position);
    assert_eq!(state.final_state.data(), before.final_state.data());
    for (now, was) in state.cache.layers.iter().zip(&before.cache.layers) {
        assert_eq!((&now.keys, &now.values, &now.recurrent), (&was.keys, &was.values, &was.recurrent));
    }
}

#[test]
fn stop_tokens_and_budgets_only_cut_off() {
    let mut model = dense_hybrid();
    let drawn = GenerationOptions { temperature: 1.5, seed: 11, ..options() };
    let all = model.generate_greedy_cached_with_options(&vec![0, 1], 12, &drawn).expect("tokens");
    assert_eq!(all.len(), 12);
    for budget in 0..12_usize {
        let short = model.generate_greedy_cached_with_options(&vec![0, 1], budget, &drawn).expect("tokens");
        assert_eq!(short, all[..budget].to_vec());
    }
    for stop in 0..3_usize {
        let stopping = GenerationOptions { temperature: 1.5, seed: 11, stop_token_ids: vec![stop], ..options() };
        let cut = model.generate_greedy_cached_with_options(&vec![0, 1], 12, &stopping).expect("tokens");
        let end = all.iter().position(|token| *token == stop).unwrap_or(12);
        assert_eq!(cut, all[..end].to_vec(), "stop={stop}");
    }
}

#[test]
fn drawn_tokens_come_again_whatever_was_kept() {
    let mut model = dense_hybrid();
    let drawn = GenerationOptions { temperature: 1.5, seed: 3, ..options() };
    model.generate_greedy_cached_with_options(&vec![0], 4, &drawn).expect("another prompt");
    let first = model.generate_greedy_cached_with_options(&vec![0, 1, 2], 8, &drawn).expect("tokens");
    let again = model.generate_greedy_cached_with_options(&vec![0, 1, 2], 8, &drawn).expect("tokens");
    assert_eq!(first, again);
    assert_eq!(first.len(), 8);
}

#[test]
fn rounds_on_a_device_are_of_three_kinds() {
    assert_eq!(next_round_kind(true, true, 1, 0, 1), RoundKind::One);
    assert_eq!(next_round_kind(true, true, 2, 3, 5), RoundKind::Two);
    assert_eq!(next_round_kind(true, true, 2, 4, 5), RoundKind::Apart);
    assert_eq!(next_round_kind(true, true, 2, 6, 5), RoundKind::Apart);
    assert_eq!(next_round_kind(true, true, 3, 0, 9), RoundKind::Apart);
    assert_eq!(next_round_kind(false, true, 1, 0, 9), RoundKind::Apart);
    assert_eq!(next_round_kind(true, false, 2, 0, 9), RoundKind::Apart);
}

#[test]
fn decisions_say_what_the_layers_and_the_head_are_told() {
    let targets = (5, 8, 7);
    let none = decide_two((4, 6), targets, &vec![]);
    assert_eq!((none.row_to_go_back_to(), none.tokens_for_the_head(targets)), (Some(0), vec![]));
    let one = decide_two((5, 6), targets, &vec![]);
    assert_eq!((one.row_to_go_back_to(), one.tokens_for_the_head(targets)), (Some(1), vec![5]));
    let both = decide_two((5, 8), targets, &vec![]);
    assert_eq!((both.row_to_go_back_to(), both.tokens_for_the_head(targets)), (None, vec![5, 8]));
}

#[test]
fn counts_are_taken_up_to_the_range_of_the_machine() {
    let mut stats = SpeculativeStats::new(2);
    assert!(is_countable(&stats));
    stats.rejected = u128::MAX - 2;
    assert!(!is_countable(&stats));
    stats.rejected = 0;
    stats.proposed_by_position[1] = u128::MAX;
    assert!(!is_countable(&stats));
}

#[test]
fn probe_comes_whatever_room_there_is() {
    let mut controller = AdaptiveDepthController::new(&F32, 3, 1.0, 0.5, 4);
    controller.observe(&F32, 3, 0);
    let room = [2_usize, 7, 3, 2];
    let depths: Vec<usize> = room.iter().map(|remaining| controller.plan(&F32, *remaining)).collect();
    assert_eq!(depths, vec![1, 1, 1, 2]);
}

/// A file with the given header and bytes behind it.
fn file_with(header: &str, data: &[u8]) -> Vec<u8> {
    let mut file = (header.len() as u64).to_le_bytes().to_vec();
    file.extend_from_slice(header.as_bytes());
    file.extend_from_slice(data);
    file
}

#[test]
fn files_with_long_numbers_are_read() {
    let plain = file_of(test_weights());
    let length = u64::from_le_bytes(plain[..8].try_into().expect("length")) as usize;
    let header = String::from_utf8(plain[8..8 + length].to_vec()).expect("text");
    let spare = format!(
        "{{\"spare\":{{\"dtype\":\"F32\",\"shape\":[0,{}],\"data_offsets\":[0,0],\"note\":{}}},{}",
        usize::MAX,
        u64::MAX,
        &header[1..]
    );
    let mut model = CausalDecoder::from_safetensors(F32, &file_with(&spare, &plain[8 + length..]), default_config(), flags())
        .expect("file loads");
    assert_eq!(model.generate_greedy(&vec![0], 1).expect("greedy"), vec![0]);
}

#[test]
fn files_out_of_range_are_refused() {
    let part = usize::MAX / 8;
    let tensors: Vec<String> = (0..8)
        .map(|i| {
            format!("\"t{i}\":{{\"dtype\":\"U8\",\"shape\":[{part}],\"data_offsets\":[{},{}]}}", i * part, (i + 1) * part)
        })
        .collect();
    let file = file_with(&format!("{{{}}}", tensors.join(",")), &[]);
    assert!(matches!(CausalDecoder::from_safetensors(F32, &file, default_config(), flags()), Err(InferError::Config(_))));
    assert!(matches!(MtpHead::from_sidecar(&F32, &file), Err(InferError::Config(_))));
    assert!(matches!(load_mtp_draft_lm_head(&F32, &file, 2), Err(InferError::Config(_))));
}

#[test]
fn decoder_from_a_file_has_seen_nothing() {
    let model = CausalDecoder::from_safetensors(F32, &file_of(test_weights()), default_config(), flags()).expect("file loads");
    assert!(model.prefix_cache.entries.is_empty());
    assert!(model.model.mtp.is_none() && model.model.mtp_draft_lm_head.is_none());
    assert_eq!(model.model.layers.len(), 1);
}

#[test]
fn deep_steps_change_the_average_and_their_count_only() {
    let mut c = ctl(3);
    c.plan(&F32, 4);
    c.plan(&F32, 1);
    let before = (c.cap, c.alpha, c.threshold, c.probe_period, c.steps_since_deep, c.total_depth, c.steps);
    c.observe(&F32, 2, 0);
    assert_eq!((c.cap, c.alpha, c.threshold, c.probe_period, c.steps_since_deep, c.total_depth, c.steps), before);
    assert_eq!((c.ema_deep, c.deep_steps), (0.5, 1));
}

#[test]
fn nothing_is_turned_where_there_is_nothing() {
    let none = apply_rope_heads_at(&F32, &tensor(vec![0, 4], vec![]), 1, 4, 9, rope(10_000.0, 1.0), 0, RopeStyle::Halves);
    assert_eq!(none.expect("no rows").shape(), &[0, 4]);
    let flat = apply_rope_heads_at(&F32, &tensor(vec![2, 0], vec![]), 0, 4, 9, rope(10_000.0, 1.0), 0, RopeStyle::Halves);
    assert_eq!(flat.expect("no heads").shape(), &[2, 0]);
    let x = tensor(vec![1, 4], vec![1.0, 2.0, 3.0, 4.0]);
    let odd = apply_rope_heads_at(&F32, &x, 1, 4, 5, rope(10_000.0, 1.0), 1, RopeStyle::Interleaved).expect("whole pairs");
    let even = apply_rope_heads_at(&F32, &x, 1, 4, 4, rope(10_000.0, 1.0), 1, RopeStyle::Interleaved).expect("whole pairs");
    assert_eq!(odd.data(), even.data());
    let last = apply_rope_heads_at(&F32, &x, 1, 4, 4, rope(10_000.0, 1.0), usize::MAX, RopeStyle::Halves);
    assert_eq!(last.expect("last position").shape(), &[1, 4]);
    let long = apply_rope_heads_at(&F32, &x, 1, 4, 6, rope(10_000.0, 1.0), 1, RopeStyle::Halves);
    assert!(matches!(long, Err(InferError::Dimension(_))));
}

#[test]
fn attention_looks_at_no_rotation() {
    let q = tensor(vec![2, 2], vec![1.0, 0.5, -0.5, 1.0]);
    let with = causal_attention(&F32, &q, &q, &q, &full_layout()).expect("context");
    for rope_dims in [0, 1, 9] {
        let without = causal_attention(&F32, &q, &q, &q, &AttentionLayout { rope_dims, ..full_layout() }).expect("context");
        assert_eq!(with.data(), without.data());
    }
    let none = tensor(vec![2, 0], vec![]);
    let headless = AttentionLayout { num_attention_heads: 0, ..full_layout() };
    assert_eq!(causal_attention(&F32, &none, &q, &q, &headless).expect("no heads").shape(), &[2, 0]);
}

fn expert(scale: f32) -> GatedMlp<f32> {
    GatedMlp {
        gate_proj: dense(2, 2, vec![scale, 0.25, -0.5, 1.0]),
        up_proj: dense(2, 2, vec![0.5, 1.0, 1.0, -scale]),
        down_proj: dense(2, 2, vec![1.0, 0.0, scale, 1.0]),
        activation: Activation::Silu,
    }
}

fn experts(shared: bool, gate: bool) -> FeedForward<f32> {
    FeedForward::Moe(MoeMlp {
        router: dense(2, 2, vec![1.0, 0.0, 0.0, 1.0]),
        experts: vec![expert(1.0), expert(0.5)],
        shared_expert: if shared { Some(expert(0.75)) } else { None },
        shared_expert_gate: if gate { Some(dense(1, 2, vec![0.5, -0.5])) } else { None },
        router_norm: None,
        per_expert_scale: None,
        top_k: 1,
    })
}

/// The full layer of a small decoder, with experts.
fn expert_layer(shared: bool, gate: bool) -> DecoderLayer<f32> {
    let mut layer = dense_hybrid().model.layers.remove(1);
    layer.mlp = Some(experts(shared, gate));
    layer
}

fn with_attention(mut layer: DecoderLayer<f32>, change: impl Fn(&mut causal_decoder::attention::FullAttention<f32>)) -> DecoderLayer<f32> {
    match &mut layer.attention {
        AttentionBlock::Full(attention) => change(attention),
        AttentionBlock::Linear(_) => panic!("full layer expected"),
    }
    layer
}

#[test]
fn batches_go_to_a_device_that_can_take_them() {
    let config = || CausalDecoderConfig { head_dim: Some(2), ..hybrid_config(2) };
    let gated = || CausalDecoderConfig { attn_output_gate: true, ..config() };
    let x = tensor(vec![3, 2], vec![1.0, 0.5, -0.5, 1.0, 0.25, 0.75]);
    let call = prefill_route(&config(), &expert_layer(false, false), &x, 0, true).expect("route").expect("a call");
    assert_eq!(call.route, TailRoute::Routed);
    assert_eq!((call.seq, call.hidden_dim, call.q_heads, call.kv_heads), (3, 2, 1, 1));
    assert_eq!((call.head_dim, call.rope_dims, call.rope_theta, call.eps), (2, 2, 10_000.0, 1.0e-6));
    let shared = prefill_route(&gated(), &expert_layer(true, true), &x, 0, true).expect("route").expect("a call");
    assert_eq!(shared.route, TailRoute::Shared);
    let own = with_attention(expert_layer(false, false), |attention| attention.rope_theta = Some(500.0));
    let dims = CausalDecoderConfig { rope_dims: Some(1), ..config() };
    let call = prefill_route(&dims, &own, &x, 0, true).expect("route").expect("a call");
    assert_eq!((call.rope_dims, call.rope_theta), (1, 500.0));

    let routed = || expert_layer(false, false);
    let stays = |config: CausalDecoderConfig<f32>, layer: DecoderLayer<f32>, offset: usize, device: bool| {
        prefill_route(&config, &layer, &x, offset, device).expect("route").is_none()
    };
    assert!(stays(config(), routed(), 0, false));
    assert!(stays(config(), routed(), 1, true));
    assert!(stays(gated(), routed(), 0, true));
    assert!(stays(config(), expert_layer(true, true), 0, true));
    assert!(stays(config(), expert_layer(true, false), 0, true));
    assert!(stays(config(), DecoderLayer { post_attention_norm: None, ..routed() }, 0, true));
    assert!(stays(config(), dense_hybrid().model.layers.remove(1), 0, true));
    assert!(stays(config(), dense_hybrid().model.layers.remove(0), 0, true));
    assert!(stays(CausalDecoderConfig { rope_style: RopeStyle::Interleaved, ..config() }, routed(), 0, true));
    assert!(stays(CausalDecoderConfig { rope_theta: None, ..config() }, routed(), 0, true));
    assert!(stays(config(), with_attention(routed(), |attention| attention.sliding_window = Some(2)), 0, true));
    assert!(stays(config(), with_attention(routed(), |attention| attention.rope_position_scale = Some(0.5)), 0, true));
    assert!(stays(config(), with_attention(routed(), |attention| attention.q_norm = None), 0, true));
    assert!(stays(config(), with_attention(routed(), |attention| attention.k_norm = None), 0, true));
    assert!(stays(gated(), with_attention(expert_layer(true, true), |attention| attention.v_proj = None), 0, true));

    let headless = CausalDecoderConfig { head_dim: None, ..config() };
    assert!(matches!(prefill_route(&headless, &routed(), &x, 0, true), Err(InferError::Dimension(_))));
    let valueless = with_attention(routed(), |attention| attention.v_proj = None);
    assert!(matches!(prefill_route(&config(), &valueless, &x, 0, true), Err(InferError::Config(_))));
    assert!(matches!(prefill_route(&headless, &valueless, &x, 0, true), Err(InferError::Dimension(_))));
}

fn small_call() -> PrefillCall<f32> {
    PrefillCall {
        route: TailRoute::Routed,
        seq: 2,
        hidden_dim: 2,
        q_heads: 1,
        kv_heads: 1,
        head_dim: 2,
        rope_dims: 2,
        rope_theta: 10_000.0,
        eps: 1.0e-6,
    }
}

#[test]
fn answers_of_a_device_are_taken_or_done_without() {
    let config = CausalDecoderConfig { head_dim: Some(2), ..hybrid_config(2) };
    let layer = expert_layer(false, false);
    let x = tensor(vec![2, 2], vec![1.0, 0.5, -0.5, 1.0]);
    let answer = |cols: usize| PrefillAnswer {
        output: tensor(vec![2, 2], vec![4.0, 3.0, 2.0, 1.0]),
        key: tensor(vec![2, cols], vec![5.0; 2 * cols]),
        value: tensor(vec![2, cols], vec![6.0; 2 * cols]),
    };
    let mut cache = LayerKvCache::new();
    let out = settle_prefill(&F32, &config, &layer, &x, &mut cache, 0, &small_call(), Some(answer(2))).expect("output");
    assert_eq!(out.data(), &[4.0, 3.0, 2.0, 1.0]);
    assert_eq!((cache.len(), &cache.keys, &cache.values), (2, &vec![5.0; 4], &vec![6.0; 4]));
    let wrong = settle_prefill(&F32, &config, &layer, &x, &mut cache, 0, &small_call(), Some(answer(3)));
    assert!(matches!(wrong, Err(InferError::Dimension(_))));
    assert_eq!((cache.len(), &cache.keys), (2, &vec![5.0; 4]));

    let (mut with, mut without) = (LayerKvCache::new(), LayerKvCache::new());
    let settled = settle_prefill(&F32, &config, &layer, &x, &mut with, 0, &small_call(), None).expect("host");
    let host = forward_prefill(&F32, &config, &layer, &x, &mut without, 0).expect("host");
    assert_eq!((settled.data(), &with.keys, &with.values), (host.data(), &without.keys, &without.values));
    assert_eq!(with.len(), 2);
}

#[test]
fn full_layers_refuse_batches_without_positions() {
    let config = CausalDecoderConfig { head_dim: Some(2), ..hybrid_config(2) };
    let mut cache = LayerKvCache::new();
    let none = forward_prefill(&F32, &config, &expert_layer(false, false), &tensor(vec![0, 2], vec![]), &mut cache, 0);
    assert!(matches!(none, Err(InferError::Dimension(_))));
    assert_eq!(cache.len(), 0);
}

#[test]
fn last_part_of_a_layer_goes_to_a_device_that_can_take_it() {
    assert_eq!(tail_route(&expert_layer(false, false), true), Some(TailRoute::Routed));
    assert_eq!(tail_route(&expert_layer(true, true), true), Some(TailRoute::Shared));
    assert_eq!(tail_route(&expert_layer(true, false), true), None);
    assert_eq!(tail_route(&expert_layer(false, true), true), None);
    assert_eq!(tail_route(&expert_layer(false, false), false), None);
    assert_eq!(tail_route(&DecoderLayer { post_attention_norm: None, ..expert_layer(false, false) }, true), None);
    assert_eq!(tail_route(&dense_hybrid().model.layers.remove(1), true), None);
    assert_eq!(tail_route(&dense_hybrid().model.layers.remove(0), true), None);
}

#[test]
fn parts_of_a_layer_make_the_layer() {
    let config = CausalDecoderConfig { head_dim: Some(2), ..hybrid_config(2) };
    let layer = expert_layer(true, true);
    let AttentionBlock::Full(attention) = &layer.attention else { panic!("full layer expected") };
    let (mut whole, mut parts) = (LayerKvCache::new(), LayerKvCache::new());
    for (position, row) in [[1.0, 0.5], [-0.5, 1.0], [0.25, -2.0]].into_iter().enumerate() {
        let x = tensor(vec![1, 2], row.to_vec());
        let out = forward_cached(&F32, &config, &layer, &x, &mut whole, position).expect("layer");
        let context = begin_cached(&F32, &config, &layer, attention, &x, &mut parts, position).expect("context");
        let settled = settle_cached(&F32, &config, &layer, attention, &x, &context, None).expect("rest");
        assert_eq!(out.data(), settled.data());
        assert_eq!((&whole.keys, &whole.values), (&parts.keys, &parts.values));
        let given = tensor(vec![1, 2], vec![7.0, 8.0]);
        let taken = settle_cached(&F32, &config, &layer, attention, &x, &context, Some(given)).expect("answer");
        assert_eq!(taken.data(), &[7.0, 8.0]);
    }
}

#[test]
fn contexts_of_a_device_are_gated() {
    let config = CausalDecoderConfig { head_dim: Some(2), ..hybrid_config(2) };
    let layer = expert_layer(false, false);
    let AttentionBlock::Full(attention) = &layer.attention else { panic!("full layer expected") };
    let x = tensor(vec![1, 2], vec![1.0, 0.5]);
    let mut prepared = prepare_qkv(&F32, &config, attention, &x, 0).expect("prepared");
    assert_eq!(settle_context(&F32, &prepared, vec![2.0, 4.0]).expect("context").data(), &[2.0, 4.0]);
    prepared.gate = Some(tensor(vec![1, 2], vec![0.0, 1.0]));
    let gated = settle_context(&F32, &prepared, vec![2.0, 4.0]).expect("context");
    assert_close(gated.data(), &[1.0, 4.0 * sigmoid(1.0)], 1.0e-6);
    assert!(matches!(settle_context(&F32, &prepared, vec![2.0]), Err(InferError::Dimension(_))));
}

#[test]
fn prompts_in_two_parts_give_the_tokens_of_the_whole() {
    let prompt = vec![0_usize, 1, 2, 1, 0];
    let drawn = GenerationOptions { temperature: 1.5, seed: 7, ..options() };
    let mut model = dense_hybrid();
    for options in [options(), drawn] {
        let whole = model.generate_greedy_cached_with_options(&prompt, 6, &options).expect("tokens");
        for cut in 1..=prompt.len() {
            let mut state = model.prefill_prompt_state_uncached(&prompt[..cut].to_vec()).expect("prompt");
            assert_eq!(state.cache.position, cut);
            assert_eq!(state.cache.layers.len(), 2);
            model.extend_prompt_state(&mut state, &prompt[cut..].to_vec()).expect("suffix");
            let parts = model.generate_greedy_timed_from_prompt_state_with_options(state, 0, 6, &options).expect("tokens");
            assert_eq!(parts.tokens, whole, "cut={cut}");
        }
    }
}

#[test]
fn rounds_one_by_one_give_what_a_batch_gives() {
    let prompts = vec![vec![0_usize, 1], vec![1_usize, 0, 1]];
    let budgets = vec![3_usize, 5];
    let mut log = TokenLog::new();
    let whole = tiny_model().lightbatch_generate(&prompts, &budgets, &options(), 2, &mut log).expect("outputs");
    let mut model = tiny_model();
    let mut run = model.begin_lightbatch(&prompts, &budgets, &options(), 2).expect("prompts");
    let mut heard = Vec::new();
    while !run.over {
        let mut now = TokenLog::new();
        let before = run.round;
        model.model.next_lightbatch_round(&mut run, &options(), &mut now).expect("round");
        assert_eq!(run.round, before + 1);
        heard.extend(now.tokens);
    }
    assert_eq!(heard, log.tokens);
    for (stream, output) in run.streams.iter().zip(&whole) {
        assert_eq!(stream.generated, output.tokens);
    }
    for wrong in [vec![], vec![3], vec![3, 0]] {
        assert!(matches!(model.begin_lightbatch(&prompts, &wrong, &options(), 2), Err(InferError::Dimension(_))));
    }
}

#[test]
fn rows_are_turned_from_the_first_position_on() {
    let x = tensor(vec![2, 4], vec![1.0, 2.0, 3.0, 4.0, -1.0, 0.5, 2.0, 0.25]);
    let from_start = apply_rope_heads(&F32, &x, 1, 4, 4, rope(10_000.0, 1.0), RopeStyle::Halves).expect("rope");
    let at_zero = apply_rope_heads_at(&F32, &x, 1, 4, 4, rope(10_000.0, 1.0), 0, RopeStyle::Halves).expect("rope");
    assert_eq!(from_start.data(), at_zero.data());
    assert_eq!(&from_start.data()[..4], &[1.0, 2.0, 3.0, 4.0]);
    assert_ne!(&from_start.data()[4..], &x.data()[4..]);
    assert!(matches!(apply_rope_heads(&F32, &x, 1, 4, 4, rope(0.0, 1.0), RopeStyle::Halves), Err(InferError::Dimension(_))));
}

#[test]
fn pending_rows_are_written_once() {
    let decoder = drafting_hybrid();
    let model = &decoder.model;
    let (mut cache, _) = resident_hybrid(model, &vec![0, 1]);
    let head = cache.head().expect("head");
    cache.set_head(causal_decoder::resident::HeadArena { pending_start: 0, pending_count: 2, ..head });
    assert!(model.flush_mtp_resident_pending_append(false, &mut cache, 2).expect("no device").is_empty());
    let wrong = model.flush_mtp_resident_pending_append(true, &mut cache, 1);
    assert!(matches!(wrong, Err(InferError::Dimension(_))));
    assert_eq!(cache.head().expect("head").pending_count, 2);
    assert!(!model.flush_mtp_resident_pending_append(true, &mut cache, 2).expect("program").is_empty());
    let after = cache.head().expect("head");
    assert_eq!((after.pending_count, after.room.len), (0, 2));
    assert!(model.flush_mtp_resident_pending_append(true, &mut cache, 2).expect("nothing").is_empty());
}

#[test]
fn steps_in_flight_have_scratch_rows_of_their_own() {
    let mut decoder = dense_hybrid();
    decoder.model.config.parallel_moe = true;
    let model = &decoder.model;
    let (mut cache, _) = resident_hybrid(model, &vec![0, 1]);
    cache.arena.as_mut().expect("arena").namespace = 3;
    let mut sampler = TokenSampler::new(0);
    let mut pipeline = Pipeline::new(&options(), 2, 9);
    let mut names = Vec::new();
    for at in 0..4_usize {
        let made = model.enqueue_pipeline_step(true, &mut cache, &mut pipeline, &options(), &mut sampler).expect("step");
        assert_eq!(made.namespace, pipeline_scratch_namespace(3, at).expect("name"));
        assert_eq!(made.upload.is_some(), at == 0);
        names.push(made.namespace);
    }
    assert_eq!(pipeline.action(), PipelineAction::Wait);
    names.sort();
    names.dedup();
    assert_eq!(names.len(), 4);
    assert!(names.iter().all(|name| *name > 3));
}

#[test]
fn token_programs_run_under_the_name_of_their_stream() {
    let decoder = CausalDecoder::from_tensors(
        F32,
        store(dense_hybrid_weights()),
        CausalDecoderConfig { head_dim: Some(2), ..hybrid_config(2) },
        DecoderFlags { gpu_sampler: true, ..flags() },
    )
    .expect("weights fit");
    let model = &decoder.model;
    let (mut cache, _) = resident_hybrid(model, &vec![0, 1]);
    cache.arena.as_mut().expect("arena").namespace = 7;
    assert_eq!(model.decode_token_resident(true, &mut cache, 2).expect("program").namespace, 7);
    let drawn = GenerationOptions { temperature: 0.7, top_p: 0.9, top_k: 0, ..options() };
    let made = model.decode_token_resident_sampled(true, &mut cache, 2, &drawn, &TokenSampler::new(1)).expect("program");
    assert_eq!(made.namespace, 7);
}

fn switches() -> SoloSwitches {
    SoloSwitches { full: true, layers: true, allow_pipelined: true, pipeline: true, throttled: false, dumps: false }
}

#[test]
fn generations_take_the_way_that_is_open() {
    let decoder = CausalDecoder::from_tensors(F32, store(gqa_weights()), gqa_config(), DecoderFlags { gpu_sampler: true, ..flags() })
        .expect("weights fit");
    let model = &decoder.model;
    let all = SoloRoute::Full { pipelined: true };
    let one = SoloRoute::Full { pipelined: false };
    let drawn = GenerationOptions { temperature: 0.7, ..options() };
    let nucleus = GenerationOptions { temperature: 0.7, top_p: 0.9, ..options() };
    let endless = GenerationOptions { temperature: f32::INFINITY, ..options() };
    let unknown = GenerationOptions { temperature: f32::NAN, ..options() };
    let guided = GenerationOptions { guided: true, ..options() };
    let ending = GenerationOptions { stop_sequences: vec![vec![1]], ..options() };
    assert_eq!(model.solo_route(&options(), &switches(), true, true), all);
    assert_eq!(model.solo_route(&drawn, &switches(), true, true), all);
    assert_eq!(model.solo_route(&nucleus, &switches(), true, true), one);
    assert_eq!(model.solo_route(&ending, &switches(), true, true), one);
    assert_eq!(model.solo_route(&endless, &switches(), true, true), SoloRoute::Layers);
    assert_eq!(model.solo_route(&unknown, &switches(), true, true), SoloRoute::Layers);
    assert_eq!(model.solo_route(&guided, &switches(), true, true), SoloRoute::Host);
    for change in [
        SoloSwitches { allow_pipelined: false, ..switches() },
        SoloSwitches { pipeline: false, ..switches() },
        SoloSwitches { throttled: true, ..switches() },
        SoloSwitches { dumps: true, ..switches() },
    ] {
        assert_eq!(model.solo_route(&options(), &change, true, true), one);
    }
    assert_eq!(model.solo_route(&options(), &switches(), false, true), SoloRoute::Layers);
    assert_eq!(model.solo_route(&options(), &switches(), true, false), SoloRoute::Layers);
    assert_eq!(model.solo_route(&options(), &SoloSwitches { full: false, ..switches() }, true, true), SoloRoute::Layers);
    let none = SoloSwitches { full: false, layers: false, ..switches() };
    assert_eq!(model.solo_route(&options(), &none, true, true), SoloRoute::Host);

    assert!(model.wants_full(&guided, DecodeUse::Stream, true, true));
    assert!(!model.wants_full(&guided, DecodeUse::Solo, true, true));
    assert!(model.wants_full(&drawn, DecodeUse::Stream, true, true));
    assert!(!model.wants_full(&drawn, DecodeUse::Guesses, true, true));
    assert!(model.wants_full(&options(), DecodeUse::Guesses, true, true));
    assert!(!model.wants_full(&options(), DecodeUse::Guesses, true, false));
    assert!(model.wants_layers(&guided, DecodeUse::Stream, true, false));
    assert!(!model.wants_layers(&guided, DecodeUse::Solo, true, false));
    assert!(!model.wants_layers(&options(), DecodeUse::Solo, true, true));
}

#[test]
fn streams_go_together_only_in_pairs() {
    let decoder = dense_hybrid();
    let model = &decoder.model;
    let (first, _) = resident_hybrid(model, &vec![0, 1]);
    let (second, _) = resident_hybrid(model, &vec![1]);
    let facts = DuoFacts { present: true, lm_head: true, layers: vec![true, true] };
    for streams in [0, 1, 3] {
        assert!(!model.is_duo(streams, true, &options(), &first, &second, &facts));
    }
    assert!(!model.is_duo(2, false, &options(), &first, &second, &facts));
}

fn apart_run(drafts: &Vec<usize>, targets: &Vec<usize>, stop: Vec<usize>, max: usize, committed: bool) -> (ResidentRun, Option<usize>) {
    let options = GenerationOptions { stop_token_ids: stop, ..options() };
    let mut run = ResidentRun { generated: vec![9], stats: SpeculativeStats::new(3), pending: 9, history_len: 4 };
    let ended = run.settle_drafts(&options, drafts, targets, max, committed);
    (run, ended)
}

#[test]
fn drafts_apart_are_settled_as_on_the_host() {
    let drafts = vec![5, 6, 7];
    let (run, ended) = apart_run(&drafts, &vec![5, 6, 7], vec![], 10, true);
    assert_eq!((run.generated, ended, run.pending, run.history_len), (vec![9, 5, 6, 7], None, 9, 8));
    assert_eq!((run.stats.verifications, run.stats.accepted, run.stats.rejected), (3, 3, 0));
    let (run, ended) = apart_run(&drafts, &vec![5, 8, 7], vec![], 10, true);
    assert_eq!((run.generated, ended, run.pending, run.history_len), (vec![9, 5], Some(1), 8, 6));
    assert_eq!((run.stats.proposed_by_position, run.stats.accepted_by_position), (vec![1, 1, 0], vec![1, 0, 0]));
    let (run, ended) = apart_run(&drafts, &vec![5, 6, 7], vec![6], 10, false);
    assert_eq!((run.generated, ended, run.pending, run.history_len), (vec![9, 5], Some(1), 6, 4));
    assert_eq!((run.stats.accepted, run.stats.rejected), (2, 0));
    let (run, ended) = apart_run(&drafts, &vec![5, 6, 7], vec![], 3, true);
    assert_eq!((run.generated, ended, run.pending, run.history_len), (vec![9, 5, 6], Some(1), 9, 7));
    let (mut run, ended) = apart_run(&vec![], &vec![], vec![], 3, true);
    assert_eq!((ended, run.history_len), (None, 5));
    run.go_on(2);
    assert_eq!((run.pending, run.stats.verifications), (2, 1));
    assert_eq!(tokens_to_check(9, &drafts), vec![9, 5, 6]);
    assert!(tokens_to_check(9, &vec![]).is_empty());
    assert!(counts_fit(&run.stats, u64::MAX));
}

#[test]
fn tokens_are_given_up_to_a_stop_or_the_budget() {
    let stopping = GenerationOptions { stop_token_ids: vec![4], ..options() };
    let mut run = fresh_run(0);
    assert!(run.give(&stopping, 3));
    run.pending = 4;
    assert!(!run.give(&stopping, 3));
    assert_eq!(run.generated, vec![9, 9]);
    run.pending = 5;
    assert!(!run.give(&stopping, 3));
    assert!(!run.give(&stopping, 3));
    assert_eq!(run.generated, vec![9, 9, 5]);
}

#[test]
fn checks_keep_what_they_may_have_to_go_back_to() {
    let decoder = dense_hybrid();
    let model = &decoder.model;
    let (cache, _) = resident_hybrid(model, &vec![0, 1]);
    let request = VerifyRequest { capture_linear: true, ..verify_request() };
    let kept = model.captures_of_check(&cache, 2, 3, request, true).expect("kept");
    assert_eq!((kept.base_position, kept.linear), (2, vec![Some(2), None]));
    assert!(model.captures_of_check(&cache, 2, 1, request, true).is_none());
    assert!(model.captures_of_check(&cache, 2, 3, request, false).is_none());
    let none = VerifyRequest { capture_linear: false, ..request };
    assert!(model.captures_of_check(&cache, 2, 3, none, true).is_none());
}

#[test]
fn first_fault_of_layers_to_read_decides() {
    assert!(validate_capture_layer_ids(&vec![2, 0], 3).is_ok());
    assert!(matches!(validate_capture_layer_ids(&vec![], 3), Err(InferError::Config(_))));
    assert!(matches!(validate_capture_layer_ids(&vec![3, 0, 0], 3), Err(InferError::Dimension(_))));
    assert!(matches!(validate_capture_layer_ids(&vec![0, 0, 3], 3), Err(InferError::Config(_))));
}

#[test]
fn background_streams_give_way() {
    let prompts = vec![vec![0_usize, 1], vec![1_usize, 0, 1], vec![1_usize]];
    for stride in [0_u64, 1, 2, 3] {
        for first in [2_usize, 7] {
            let mut log = TokenLog::new();
            tiny_model().lightbatch_generate(&prompts, &vec![first, 4, 3], &options(), stride, &mut log).expect("outputs");
            assert_eq!(log.tokens.len(), first + 7);
            for (place, (stream, _)) in log.tokens.iter().enumerate().filter(|(_, told)| told.0 > 0) {
                let count = |who: usize, until: usize| log.tokens[..until].iter().filter(|told| told.0 == who).count();
                let before = count(0, place);
                assert!(before >= count(*stream, place + 1) * stride as usize || before == first, "stride={stride} place={place}");
            }
        }
    }
}

#[test]
fn streams_of_a_round_answer_in_order() {
    let prompts = vec![vec![0_usize, 1], vec![1_usize, 0, 1], vec![1_usize]];
    let mut model = tiny_model();
    let mut run = model.begin_lightbatch(&prompts, &vec![3, 2, 3], &options(), 1).expect("prompts");
    while !run.over {
        let mut log = TokenLog::new();
        model.model.next_lightbatch_round(&mut run, &options(), &mut log).expect("round");
        assert!(log.tokens.windows(2).all(|pair| pair[0].0 < pair[1].0));
    }
}

#[test]
fn answers_of_another_machine_go_on_as_on_the_host() {
    let model = tiny_model();
    let state = model.prefill_prompt_state_uncached(&vec![0, 1]).expect("prompt");
    let mut host = model.model.open_generation(state.cache.duplicate(), &state.final_state, 0, 3, &options()).expect("open");
    let mut other = model.model.open_generation(state.cache, &state.final_state, 0, 3, &options()).expect("open");
    while let Some(token) = host.offer(&options()) {
        assert_eq!(other.offer(&options()), Some(token));
        model.model.answer_generation(&mut host, &options(), true).expect("answer");
        if other.hear(&options(), true) {
            other.take_token(host.token, u64::MAX);
            assert_eq!(other.decode, u64::MAX);
        }
    }
    assert_eq!(other.offer(&options()), None);
    assert_eq!((host.tokens.len(), host.done), (3, 2));
    assert_eq!((other.tokens, other.done), (host.tokens, host.done));
}

#[test]
fn states_and_logits_have_their_widths() {
    let mut model = dense_hybrid();
    let (_, logits) = model.prefill_cache(&vec![0, 1]).expect("prompt");
    assert_eq!(logits.shape(), &[1, model.model.lm_head.out_dim]);
    let (_, logits) = model.prefill_cache_uncached(&vec![0, 1]).expect("prompt");
    assert_eq!(logits.shape(), &[1, model.model.lm_head.out_dim]);
    let mut state = model.prefill_prompt_state_uncached(&vec![0]).expect("prompt");
    model.extend_prompt_state(&mut state, &vec![1]).expect("suffix");
    assert_eq!(state.final_state.shape(), &[1, 2]);
}

#[test]
fn full_rooms_change_nothing() {
    let decoder = dense_hybrid();
    let model = &decoder.model;
    let (mut cache, _) = resident_hybrid(model, &vec![0, 1]);
    for room in cache.rooms.iter_mut().flatten() {
        room.len = room.capacity;
    }
    let before = cache.rooms.clone();
    assert!(matches!(cache.next_final_state_cached(model, 0), Err(InferError::Dimension(_))));
    assert_eq!(cache.rooms, before);
    assert!(cache.arena.is_some());
    assert_eq!(cache.cache.position, 2);
}
