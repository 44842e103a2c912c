//! Switches of the decoder, and how their values are read.

use vstd::prelude::*;

verus! {

/// Switches that the decoder runs under.
#[derive(Clone, Copy, PartialEq, Eq, Structural, Debug)]
pub struct DecoderFlags {
    /// Let a device find the best token.
    pub gpu_argmax: bool,
    /// Let a device draw a token.
    pub gpu_sampler: bool,
    /// Take a prompt through the layers as a batch.
    pub prefill_batched: bool,
    /// Linear layers take part in a batch.
    pub prefill_linear_batched: bool,
    /// Tokens of a batch at most; zero for the whole prompt.
    pub prefill_chunk_size: usize,
    /// Keep the states of prompts for later prompts that start with them.
    pub prefix_cache: bool,
    /// Number of prompts that are kept.
    pub prefix_cache_capacity: usize,
    /// A draft head sees the prompt and the tokens that were kept.
    pub mtp_committed_history: bool,
    /// Background streams advance every so many rounds.
    pub lightbatch_background_stride: u64,
}

/// A lower-case form of an ASCII letter; other bytes stay as they are.
pub open spec fn lowered(byte: u8) -> u8 {
    if 65 <= byte <= 90 {
        (byte + 32) as u8
    } else {
        byte
    }
}

/// Two texts are equal but for the case of ASCII letters.
pub open spec fn same_but_case(a: Seq<u8>, b: Seq<u8>) -> bool {
    a.len() == b.len() && forall|i: int| 0 <= i < a.len() ==> lowered(#[trigger] a[i]) == lowered(b[i])
}

/// `1`.
pub open spec fn text_one() -> Seq<u8> {
    seq![49u8]
}

/// `0`.
pub open spec fn text_zero() -> Seq<u8> {
    seq![48u8]
}

/// `true`.
pub open spec fn text_true() -> Seq<u8> {
    seq![116u8, 114u8, 117u8, 101u8]
}

/// `false`.
pub open spec fn text_false() -> Seq<u8> {
    seq![102u8, 97u8, 108u8, 115u8, 101u8]
}

/// `on`.
pub open spec fn text_on() -> Seq<u8> {
    seq![111u8, 110u8]
}

/// `off`.
pub open spec fn text_off() -> Seq<u8> {
    seq![111u8, 102u8, 102u8]
}

/// The text switches on.
pub open spec fn says_on(text: Seq<u8>) -> bool {
    text == text_one() || same_but_case(text, text_true()) || same_but_case(text, text_on())
}

/// The text switches off.
pub open spec fn says_off(text: Seq<u8>) -> bool {
    text == text_zero() || same_but_case(text, text_false()) || same_but_case(text, text_off())
}

/// What a switch is set to by the value of its variable, where there is one.
pub open spec fn flag_of(value: Option<Seq<u8>>, default: bool) -> bool {
    match value {
        Some(text) => if says_on(text) {
            true
        } else if says_off(text) {
            false
        } else {
            default
        },
        None => default,
    }
}

fn lower(byte: u8) -> (out: u8)
    ensures
        out == lowered(byte),
{
    if 65 <= byte && byte <= 90 {
        byte + 32
    } else {
        byte
    }
}

fn equals_but_case(text: &Vec<u8>, word: &Vec<u8>) -> (same: bool)
    ensures
        same == same_but_case(text@, word@),
{
    if text.len() != word.len() {
        return false;
    }
    for i in 0..text.len()
        invariant
            text@.len() == word@.len(),
            forall|j: int| 0 <= j < i ==> lowered(#[trigger] text@[j]) == lowered(word@[j]),
    {
        if lower(text[i]) != lower(word[i]) {
            return false;
        }
    }
    true
}

/// Whether a switch is on, given the value of its variable: `1`, `true` and `on`
/// switch it on, `0`, `false` and `off` switch it off, in any case of letters, and
/// anything else leaves the default.
pub fn env_flag(value: &Option<Vec<u8>>, default: bool) -> (on: bool)
    ensures
        on == flag_of(
            match value {
                Some(text) => Some(text@),
                None => None,
            },
            default,
        ),
{
    match value {
        Some(text) => {
            let one: Vec<u8> = vec![49u8];
            let zero: Vec<u8> = vec![48u8];
            let word_true: Vec<u8> = vec![116u8, 114u8, 117u8, 101u8];
            let word_false: Vec<u8> = vec![102u8, 97u8, 108u8, 115u8, 101u8];
            let word_on: Vec<u8> = vec![111u8, 110u8];
            let word_off: Vec<u8> = vec![111u8, 102u8, 102u8];
            proof {
                assert(one@ =~= text_one());
                assert(zero@ =~= text_zero());
                assert(word_true@ =~= text_true());
                assert(word_false@ =~= text_false());
                assert(word_on@ =~= text_on());
                assert(word_off@ =~= text_off());
            }
            if same_text(text, &one) || equals_but_case(text, &word_true) || equals_but_case(text, &word_on) {
                true
            } else if same_text(text, &zero) || equals_but_case(text, &word_false) || equals_but_case(text, &word_off) {
                false
            } else {
                default
            }
        },
        None => default,
    }
}

/// Two texts are equal.
pub fn same_text(a: &Vec<u8>, b: &Vec<u8>) -> (same: bool)
    ensures
        same == (a@ == b@),
{
    if a.len() != b.len() {
        return false;
    }
    for i in 0..a.len()
        invariant
            a@.len() == b@.len(),
            forall|j: int| 0 <= j < i ==> a@[j] == b@[j],
    {
        if a[i] != b[i] {
            return false;
        }
    }
    assert(a@ =~= b@);
    true
}

/// The bytes are decimal digits.
pub open spec fn all_digits(text: Seq<u8>) -> bool {
    forall|i: int| 0 <= i < text.len() ==> 48 <= #[trigger] text[i] <= 57
}

/// The number that decimal digits write.
pub open spec fn written(text: Seq<u8>) -> int
    decreases text.len(),
{
    if text.len() == 0 {
        0
    } else {
        written(text.drop_last()) * 10 + (text.last() - 48)
    }
}

/// A text without a leading plus sign.
pub open spec fn unsigned(text: Seq<u8>) -> Seq<u8> {
    if text.len() > 0 && text[0] == 43 {
        text.drop_first()
    } else {
        text
    }
}

/// The count that a text writes: decimal digits, some of them, behind a plus sign at
/// most, of a number within the machine's range.
pub open spec fn count_written(text: Seq<u8>) -> Option<usize> {
    let digits = unsigned(text);
    if digits.len() > 0 && all_digits(digits) && written(digits) <= usize::MAX {
        Some(written(digits) as usize)
    } else {
        None
    }
}

/// More digits write no smaller number.
proof fn lemma_written_grows(text: Seq<u8>, n: int)
    requires
        all_digits(text),
        0 <= n <= text.len(),
    ensures
        0 <= written(text.take(n)) <= written(text),
    decreases text.len(),
{
    if n == text.len() {
        assert(text.take(n) =~= text);
        if n > 0 {
            let shorter = text.drop_last();
            assert(all_digits(shorter)) by {
                assert forall|i: int| 0 <= i < shorter.len() implies 48 <= #[trigger] shorter[i] <= 57 by {
                    assert(shorter[i] == text[i]);
                }
            }
            lemma_written_grows(shorter, n - 1);
            assert(text[text.len() - 1] >= 48);
        }
    } else {
        let shorter = text.drop_last();
        assert(all_digits(shorter)) by {
            assert forall|i: int| 0 <= i < shorter.len() implies 48 <= #[trigger] shorter[i] <= 57 by {
                assert(shorter[i] == text[i]);
            }
        }
        assert(shorter.take(n) =~= text.take(n));
        lemma_written_grows(shorter, n);
        assert(text[text.len() - 1] >= 48);
    }
}

/// Reads a count.
pub fn parse_count(text: &Vec<u8>) -> (out: Option<usize>)
    ensures
        out == count_written(text@),
{
    let n: usize = text.len();
    let start: usize = if n > 0 && text[0] == 43 {
        1
    } else {
        0
    };
    let ghost digits = unsigned(text@);
    assert(digits =~= text@.skip(start as int));
    if start == n {
        return None;
    }
    let mut value: usize = 0;
    let mut i: usize = start;
    assert(digits.take(0) =~= Seq::<u8>::empty());
    while i < n
        invariant
            start <= i <= n,
            n == text@.len(),
            digits == text@.skip(start as int),
            digits == unsigned(text@),
            digits.len() > 0,
            value == written(digits.take(i - start)),
            all_digits(digits.take(i - start)),
        decreases n - i,
    {
        let byte: u8 = text[i];
        let ghost at = i - start;
        assert(digits[at] == byte);
        if byte < 48 || byte > 57 {
            assert(!all_digits(digits)) by {
                assert(!(48 <= digits[at] <= 57));
            }
            return None;
        }
        let digit: usize = (byte - 48) as usize;
        proof {
            assert(digits.take(at + 1).drop_last() =~= digits.take(at));
            assert(digits.take(at + 1).last() == byte);
            assert forall|j: int| 0 <= j < digits.take(at + 1).len() implies 48 <= #[trigger] digits.take(at + 1)[j] <= 57 by {
                if j < at {
                    assert(digits.take(at + 1)[j] == digits.take(at)[j]);
                }
            }
        }
        let tenfold: Option<usize> = value.checked_mul(10);
        let next: Option<usize> = match tenfold {
            Some(tenfold) => tenfold.checked_add(digit),
            None => None,
        };
        match next {
            Some(next) => {
                value = next;
            },
            None => {
                proof {
                    if all_digits(digits) {
                        lemma_written_grows(digits, at + 1);
                    }
                }
                return None;
            },
        }
        i = i + 1;
    }
    assert(digits.take(n - start) =~= digits);
    Some(value)
}

/// A count that a variable sets, or the default.
pub open spec fn count_or(value: Option<Seq<u8>>, default: usize) -> usize {
    match value {
        Some(text) => match count_written(text) {
            Some(count) => count,
            None => default,
        },
        None => default,
    }
}

/// A count that a variable sets, or the default.
pub fn env_count(value: &Option<Vec<u8>>, default: usize) -> (count: usize)
    ensures
        count == count_or(
            match value {
                Some(text) => Some(text@),
                None => None,
            },
            default,
        ),
{
    match value {
        Some(text) => match parse_count(text) {
            Some(count) => count,
            None => default,
        },
        None => default,
    }
}

/// Positions from which attention is shared among threads.
pub fn attention_parallel_threshold(value: &Option<Vec<u8>>) -> (count: usize)
    ensures
        count == count_or(
            match value {
                Some(text) => Some(text@),
                None => None,
            },
            128,
        ),
{
    env_count(value, 128)
}

/// Number of prompts that are kept.
pub fn prefix_cache_capacity(value: &Option<Vec<u8>>) -> (count: usize)
    ensures
        count == count_or(
            match value {
                Some(text) => Some(text@),
                None => None,
            },
            4,
        ),
{
    env_count(value, 4)
}

/// Whether prompts are kept: not where the linear layers live on a device, since
/// their state there cannot be kept.
pub fn prefix_cache_enabled(linear_on_device: bool, value: &Option<Vec<u8>>) -> (on: bool)
    ensures
        on == (!linear_on_device && flag_of(
            match value {
                Some(text) => Some(text@),
                None => None,
            },
            true,
        )),
{
    if linear_on_device {
        return false;
    }
    env_flag(value, true)
}

/// The switches that variables set.
#[derive(Clone, Copy, PartialEq, Eq, Structural, Debug)]
pub enum Switch {
    GpuArgmax,
    GpuSampler,
    DecodeResident,
    DecodeResidentFull,
    DecodePipeline,
    ProfileLayer,
    PrefillBatch,
    PrefillResident,
    MtpNormTrace,
    GpuCounters,
    TraceLinearAttention,
    TracePrefill,
    DecodeProfile,
    TopkBench,
    TraceMoe,
    PrefixCache,
    LinearAttentionResident,
}

impl Switch {
    /// What the switch is without a variable.
    pub open spec fn default_on(self) -> bool {
        match self {
            Switch::GpuArgmax => true,
            Switch::GpuSampler => true,
            Switch::DecodeResident => false,
            Switch::DecodeResidentFull => true,
            Switch::DecodePipeline => true,
            Switch::ProfileLayer => false,
            Switch::PrefillBatch => true,
            Switch::PrefillResident => true,
            Switch::MtpNormTrace => false,
            Switch::GpuCounters => false,
            Switch::TraceLinearAttention => false,
            Switch::TracePrefill => false,
            Switch::DecodeProfile => false,
            Switch::TopkBench => false,
            Switch::TraceMoe => false,
            Switch::PrefixCache => true,
            Switch::LinearAttentionResident => true,
        }
    }

    /// The name of the variable.
    pub open spec fn variable_name(self) -> Seq<char> {
        match self {
            Switch::GpuArgmax => "RETI_RUST_GPU_ARGMAX"@,
            Switch::GpuSampler => "RETI_RUST_GPU_SAMPLER"@,
            Switch::DecodeResident => "RETI_RUST_DECODE_RESIDENT"@,
            Switch::DecodeResidentFull => "RETI_RUST_DECODE_RESIDENT_FULL"@,
            Switch::DecodePipeline => "RETI_RUST_DECODE_PIPELINE"@,
            Switch::ProfileLayer => "RETI_RUST_PROFILE_LAYER"@,
            Switch::PrefillBatch => "RETI_RUST_PREFILL_BATCH"@,
            Switch::PrefillResident => "RETI_RUST_PREFILL_RESIDENT"@,
            Switch::MtpNormTrace => "RETI_RUST_MTP_NORM_TRACE"@,
            Switch::GpuCounters => "RETI_RUST_GPU_COUNTERS"@,
            Switch::TraceLinearAttention => "RETI_RUST_TRACE_LINEAR_ATTN"@,
            Switch::TracePrefill => "RETI_RUST_TRACE_PREFILL"@,
            Switch::DecodeProfile => "RETI_RUST_DECODE_PROFILE"@,
            Switch::TopkBench => "RETI_RUST_TOPK_BENCH"@,
            Switch::TraceMoe => "RETI_RUST_TRACE_MOE"@,
            Switch::PrefixCache => "RETI_RUST_PREFIX_CACHE"@,
            Switch::LinearAttentionResident => "RETI_RUST_LINEAR_ATTN_RESIDENT"@,
        }
    }

    /// The name of the variable.
    pub fn variable(self) -> (name: &'static str)
        ensures
            name@ == self.variable_name(),
    {
        match self {
            Switch::GpuArgmax => "RETI_RUST_GPU_ARGMAX",
            Switch::GpuSampler => "RETI_RUST_GPU_SAMPLER",
            Switch::DecodeResident => "RETI_RUST_DECODE_RESIDENT",
            Switch::DecodeResidentFull => "RETI_RUST_DECODE_RESIDENT_FULL",
            Switch::DecodePipeline => "RETI_RUST_DECODE_PIPELINE",
            Switch::ProfileLayer => "RETI_RUST_PROFILE_LAYER",
            Switch::PrefillBatch => "RETI_RUST_PREFILL_BATCH",
            Switch::PrefillResident => "RETI_RUST_PREFILL_RESIDENT",
            Switch::MtpNormTrace => "RETI_RUST_MTP_NORM_TRACE",
            Switch::GpuCounters => "RETI_RUST_GPU_COUNTERS",
            Switch::TraceLinearAttention => "RETI_RUST_TRACE_LINEAR_ATTN",
            Switch::TracePrefill => "RETI_RUST_TRACE_PREFILL",
            Switch::DecodeProfile => "RETI_RUST_DECODE_PROFILE",
            Switch::TopkBench => "RETI_RUST_TOPK_BENCH",
            Switch::TraceMoe => "RETI_RUST_TRACE_MOE",
            Switch::PrefixCache => "RETI_RUST_PREFIX_CACHE",
            Switch::LinearAttentionResident => "RETI_RUST_LINEAR_ATTN_RESIDENT",
        }
    }

    /// Whether the switch is on, given the value of its variable.
    pub fn enabled(self, value: &Option<Vec<u8>>) -> (on: bool)
        ensures
            on == flag_of(
                match value {
                    Some(text) => Some(text@),
                    None => None,
                },
                self.default_on(),
            ),
    {
        let default: bool = match self {
            Switch::GpuArgmax => true,
            Switch::GpuSampler => true,
            Switch::DecodeResident => false,
            Switch::DecodeResidentFull => true,
            Switch::DecodePipeline => true,
            Switch::ProfileLayer => false,
            Switch::PrefillBatch => true,
            Switch::PrefillResident => true,
            Switch::MtpNormTrace => false,
            Switch::GpuCounters => false,
            Switch::TraceLinearAttention => false,
            Switch::TracePrefill => false,
            Switch::DecodeProfile => false,
            Switch::TopkBench => false,
            Switch::TraceMoe => false,
            Switch::PrefixCache => true,
            Switch::LinearAttentionResident => true,
        };
        env_flag(value, default)
    }
}

/// No text switches both on and off.
pub proof fn law_on_is_not_off(text: Seq<u8>)
    ensures
        !(says_on(text) && says_off(text)),
{
    if same_but_case(text, text_true()) {
        assert(text.len() == 4);
    }
    if same_but_case(text, text_on()) {
        assert(text.len() == 2);
    }
    if same_but_case(text, text_false()) {
        assert(text.len() == 5);
    }
    if same_but_case(text, text_off()) {
        assert(text.len() == 3);
    }
    if text == text_one() {
        assert(text[0] == 49);
        assert(text.len() == 1);
    }
    if text == text_zero() {
        assert(text[0] == 48);
        assert(text.len() == 1);
    }
}

} // verus!
