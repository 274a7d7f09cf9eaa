//! The phase benchmark: what it is asked, what it counts, what it names.

use crate::hf_config::{QwenRuntimeConfig, SafetensorsIndexSummary};
use crate::model::{layer_refusal, parts_of_a_layer_fit_together, LayerFacts};
use crate::scan::{
    decimal_reads_back, parse_u64, pieces, read_outcome, said, split_on, trim, trimmed,
    unsigned_value, ReadFault, Refusal,
};
use crate::text::{cat2, cat3, cat5, cat6, decimal, decimal_u64, same_text, views};
use crate::tma::QwenConfig;
use vstd::prelude::*;

verus! {

/// The token counts of a list whose empty entries are passed over.
pub open spec fn token_counts(parts: Seq<Seq<char>>) -> Result<Seq<u64>, Refusal>
    decreases parts.len(),
{
    if parts.len() == 0 {
        Ok(Seq::empty())
    } else {
        match token_counts(parts.drop_last()) {
            Err(error) => Err(error),
            Ok(before) => {
                let entry = trimmed(parts.last());
                if entry.len() == 0 {
                    Ok(before)
                } else {
                    match unsigned_value(entry, u64::MAX as nat) {
                        None => Err(
                            Refusal::NoCount {
                                text: "invalid prefill token count `"@ + entry + "`"@,
                                raw: entry,
                            },
                        ),
                        Some(count) => if count == 0 {
                            Err(
                                Refusal::Said {
                                    text: "prefill token counts must be greater than zero"@,
                                },
                            )
                        } else {
                            Ok(before.push(count as u64))
                        },
                    }
                }
            },
        }
    }
}

/// What a comma-separated list of token counts gives.
pub open spec fn prefill_tokens(input: Seq<char>) -> Result<Seq<u64>, Refusal> {
    match token_counts(pieces(input, ',')) {
        Err(error) => Err(error),
        Ok(counts) => if counts.len() == 0 {
            Err(Refusal::Said { text: "provide at least one prefill token count"@ })
        } else {
            Ok(counts)
        },
    }
}

proof fn lemma_first_error(parts: Seq<Seq<char>>, count: int)
    requires
        0 <= count <= parts.len(),
        token_counts(parts.take(count)) is Err,
    ensures
        token_counts(parts) == token_counts(parts.take(count)),
    decreases parts.len(),
{
    if count == parts.len() {
        assert(parts.take(count) =~= parts);
    } else {
        assert(parts.drop_last().take(count) =~= parts.take(count));
        lemma_first_error(parts.drop_last(), count);
    }
}

pub fn parse_prefill_tokens(input: &str) -> (result: Result<Vec<u64>, ReadFault>)
    ensures
        read_outcome(result, prefill_tokens(input@)),
{
    let parts: Vec<String> = split_on(input, ',');
    let ghost texts = pieces(input@, ',');
    let mut counts: Vec<u64> = Vec::new();
    let mut index: usize = 0;
    assert(texts.take(0) =~= Seq::<Seq<char>>::empty());
    while index < parts.len()
        invariant
            index <= parts@.len(),
            views(parts@) == texts,
            texts == pieces(input@, ','),
            token_counts(texts.take(index as int)) == Ok::<Seq<u64>, Refusal>(counts@),
        decreases parts@.len() - index,
    {
        let ghost next = texts.take(index + 1);
        assert(next.drop_last() =~= texts.take(index as int));
        assert(next.last() == parts@[index as int]@);
        let entry = trim(parts[index].as_str());
        proof {
            reveal_strlit("");
            if entry@.len() == 0 {
                assert(entry@ =~= ""@);
            }
            if token_counts(next) is Err {
                lemma_first_error(texts, index + 1);
            }
        }
        if !same_text(entry.as_str(), "") {
            match parse_u64(entry.as_str()) {
                None => {
                    return Err(
                        ReadFault::NoCount {
                            text: cat3("invalid prefill token count `", entry.as_str(), "`"),
                            raw: entry,
                        },
                    );
                },
                Some(count) => {
                    if count == 0 {
                        return Err(said("prefill token counts must be greater than zero".to_owned()));
                    }
                    counts.push(count);
                },
            }
        }
        index = index + 1;
    }
    assert(views(parts@).len() == parts@.len());
    assert(texts.take(index as int) =~= texts);
    if counts.len() == 0 {
        return Err(said("provide at least one prefill token count".to_owned()));
    }
    Ok(counts)
}

/// What a phase benchmark of so many iterations is run on.
pub open spec fn phase_tokens(iterations: u32, input: Seq<char>) -> Result<Seq<u64>, Refusal> {
    if iterations == 0 {
        Err(Refusal::Said { text: "phase benchmark iterations must be greater than zero"@ })
    } else {
        prefill_tokens(input)
    }
}

/// The token counts of a phase benchmark, once its iterations are checked.
pub fn check_phase_bench(iterations: u32, input: &str) -> (result: Result<Vec<u64>, ReadFault>)
    ensures
        read_outcome(result, phase_tokens(iterations, input@)),
{
    if iterations == 0 {
        return Err(said("phase benchmark iterations must be greater than zero".to_owned()));
    }
    parse_prefill_tokens(input)
}

/// The multiplications and additions that the projections of one layer make
/// for one token, halved.
pub open spec fn layer_weights(config: QwenConfig) -> int {
    let hidden = config.hidden_size as int;
    2 * hidden * hidden + 2 * hidden * (config.num_key_value_heads * config.head_dim) + 3 * hidden
        * config.intermediate_size
}

/// The operations of a prefill: each layer projects every token and attends
/// from every token to every token.
pub open spec fn prefill_ops(tokens: int, config: QwenConfig) -> int {
    config.num_hidden_layers * (2 * tokens * layer_weights(config) + 4 * config.num_attention_heads
        * tokens * tokens * config.head_dim)
}

/// The operations of the first decoded token: each layer projects one token
/// and attends to the prompt, and the logits are projected once.
pub open spec fn first_decode_ops(prompt_tokens: int, config: QwenConfig) -> int {
    config.num_hidden_layers * (2 * layer_weights(config) + 4 * config.num_attention_heads
        * prompt_tokens * config.head_dim) + 2 * config.hidden_size * config.vocab_size
}

pub open spec fn fits(value: int) -> bool {
    value <= u64::MAX
}

/// Whether the weights of a layer can be counted step by step.
pub open spec fn layer_weights_fit(config: QwenConfig) -> bool {
    let hidden = config.hidden_size as int;
    &&& fits(config.num_key_value_heads * config.head_dim)
    &&& fits(2 * hidden)
    &&& fits(2 * hidden * hidden)
    &&& fits(2 * hidden * (config.num_key_value_heads * config.head_dim))
    &&& fits(2 * hidden * hidden + 2 * hidden * (config.num_key_value_heads * config.head_dim))
    &&& fits(3 * hidden)
    &&& fits(3 * hidden * config.intermediate_size)
    &&& fits(layer_weights(config))
}

/// Whether the operations of a prefill can be counted step by step.
pub open spec fn prefill_ops_fit(tokens: int, config: QwenConfig) -> bool {
    &&& layer_weights_fit(config)
    &&& fits(2 * tokens)
    &&& fits(2 * tokens * layer_weights(config))
    &&& fits(4 * config.num_attention_heads)
    &&& fits(4 * config.num_attention_heads * tokens)
    &&& fits(4 * config.num_attention_heads * tokens * tokens)
    &&& fits(4 * config.num_attention_heads * tokens * tokens * config.head_dim)
    &&& fits(
        2 * tokens * layer_weights(config) + 4 * config.num_attention_heads * tokens * tokens
            * config.head_dim,
    )
    &&& fits(prefill_ops(tokens, config))
}

/// Whether the operations of the first decoded token can be counted step by
/// step.
pub open spec fn first_decode_ops_fit(prompt_tokens: int, config: QwenConfig) -> bool {
    &&& layer_weights_fit(config)
    &&& fits(2 * layer_weights(config))
    &&& fits(4 * config.num_attention_heads)
    &&& fits(4 * config.num_attention_heads * prompt_tokens)
    &&& fits(4 * config.num_attention_heads * prompt_tokens * config.head_dim)
    &&& fits(
        2 * layer_weights(config) + 4 * config.num_attention_heads * prompt_tokens
            * config.head_dim,
    )
    &&& fits(
        config.num_hidden_layers * (2 * layer_weights(config) + 4 * config.num_attention_heads
            * prompt_tokens * config.head_dim),
    )
    &&& fits(2 * config.hidden_size * config.vocab_size)
    &&& fits(first_decode_ops(prompt_tokens, config))
}

fn times(left: Option<u64>, right: Option<u64>) -> (product: Option<u64>)
    ensures
        match product {
            Some(product) => left is Some && right is Some && product == left->0 * right->0,
            None => left is None || right is None || left->0 * right->0 > u64::MAX,
        },
{
    match (left, right) {
        (Some(left), Some(right)) => left.checked_mul(right),
        _ => None,
    }
}

fn plus(left: Option<u64>, right: Option<u64>) -> (sum: Option<u64>)
    ensures
        match sum {
            Some(sum) => left is Some && right is Some && sum == left->0 + right->0,
            None => left is None || right is None || left->0 + right->0 > u64::MAX,
        },
{
    match (left, right) {
        (Some(left), Some(right)) => left.checked_add(right),
        _ => None,
    }
}

fn checked_layer_weights(config: &QwenConfig) -> (weights: Option<u64>)
    ensures
        match weights {
            Some(weights) => layer_weights_fit(*config) && weights == layer_weights(*config),
            None => !layer_weights_fit(*config),
        },
{
    let hidden: Option<u64> = Some(config.hidden_size);
    let kv_width: Option<u64> = times(Some(config.num_key_value_heads), Some(config.head_dim));
    let twice: Option<u64> = times(Some(2), hidden);
    let own: Option<u64> = times(twice, hidden);
    let shared: Option<u64> = times(twice, kv_width);
    let attended: Option<u64> = plus(own, shared);
    let fed: Option<u64> = times(times(Some(3), hidden), Some(config.intermediate_size));
    plus(attended, fed)
}

/// The operations of a prefill, or nothing where they cannot be counted.
pub fn checked_prefill_ops(tokens: u64, config: &QwenConfig) -> (ops: Option<u64>)
    ensures
        match ops {
            Some(ops) => prefill_ops_fit(tokens as int, *config) && ops == prefill_ops(
                tokens as int,
                *config,
            ),
            None => !prefill_ops_fit(tokens as int, *config),
        },
{
    let weights: Option<u64> = checked_layer_weights(config);
    let count: Option<u64> = Some(tokens);
    let linear: Option<u64> = times(times(Some(2), count), weights);
    let heads: Option<u64> = times(Some(4), Some(config.num_attention_heads));
    let attention: Option<u64> = times(times(times(heads, count), count), Some(config.head_dim));
    times(Some(config.num_hidden_layers), plus(linear, attention))
}

/// The operations of the first decoded token, or nothing where they cannot be
/// counted.
pub fn checked_first_decode_ops(prompt_tokens: u64, config: &QwenConfig) -> (ops: Option<u64>)
    ensures
        match ops {
            Some(ops) => first_decode_ops_fit(prompt_tokens as int, *config) && ops
                == first_decode_ops(prompt_tokens as int, *config),
            None => !first_decode_ops_fit(prompt_tokens as int, *config),
        },
{
    let weights: Option<u64> = checked_layer_weights(config);
    let linear: Option<u64> = times(Some(2), weights);
    let heads: Option<u64> = times(Some(4), Some(config.num_attention_heads));
    let attention: Option<u64> = times(
        times(heads, Some(prompt_tokens)),
        Some(config.head_dim),
    );
    let logits: Option<u64> = times(times(Some(2), Some(config.hidden_size)), Some(config.vocab_size));
    plus(times(Some(config.num_hidden_layers), plus(linear, attention)), logits)
}

pub fn qwen_prefill_ops(tokens: u64, config: &QwenConfig) -> (ops: u64)
    requires
        prefill_ops_fit(tokens as int, *config),
    ensures
        ops == prefill_ops(tokens as int, *config),
{
    match checked_prefill_ops(tokens, config) {
        Some(ops) => ops,
        None => 0,
    }
}

pub fn qwen_decode_first_token_ops(prompt_tokens: u64, config: &QwenConfig) -> (ops: u64)
    requires
        first_decode_ops_fit(prompt_tokens as int, *config),
    ensures
        ops == first_decode_ops(prompt_tokens as int, *config),
{
    match checked_first_decode_ops(prompt_tokens, config) {
        Some(ops) => ops,
        None => 0,
    }
}

/// To decode behind a prompt of one token is to prefill that one token and to
/// project the logits.
pub proof fn one_token_decodes_as_it_prefills(config: QwenConfig)
    ensures
        first_decode_ops(1, config) == prefill_ops(1, config) + 2 * config.hidden_size
            * config.vocab_size,
{
    let heads = 4 * config.num_attention_heads;
    assert(heads * 1 * 1 == heads * 1);
}

/// A longer prompt never takes fewer operations.
pub proof fn more_tokens_take_more_ops(fewer: nat, more: nat, config: QwenConfig)
    requires
        fewer <= more,
    ensures
        prefill_ops(fewer as int, config) <= prefill_ops(more as int, config),
        first_decode_ops(fewer as int, config) <= first_decode_ops(more as int, config),
{
    let weights = layer_weights(config);
    let heads = 4 * config.num_attention_heads;
    let dim = config.head_dim as int;
    let layers = config.num_hidden_layers as int;
    let (a, b) = (fewer as int, more as int);
    assert(weights >= 0) by {
        let hidden = config.hidden_size as int;
        let width = config.num_key_value_heads * config.head_dim;
        let inner = config.intermediate_size as int;
        lemma_product(config.num_key_value_heads as int, config.num_key_value_heads as int, dim, dim);
        lemma_product(2 * hidden, 2 * hidden, hidden, hidden);
        lemma_product(2 * hidden, 2 * hidden, width, width);
        lemma_product(3 * hidden, 3 * hidden, inner, inner);
    }
    lemma_product(2 * a, 2 * b, weights, weights);
    lemma_product(heads, heads, a, b);
    lemma_product(heads * a, heads * b, dim, dim);
    lemma_product(heads * a, heads * b, a, b);
    lemma_product(heads * a * a, heads * b * b, dim, dim);
    lemma_product(
        layers,
        layers,
        2 * a * weights + heads * a * a * dim,
        2 * b * weights + heads * b * b * dim,
    );
    lemma_product(
        layers,
        layers,
        2 * weights + heads * a * dim,
        2 * weights + heads * b * dim,
    );
}

proof fn lemma_product(a: int, b: int, c: int, d: int)
    requires
        0 <= a <= b,
        0 <= c <= d,
    ensures
        0 <= a * c <= b * d,
{
    assert(0 <= a * c <= b * d) by (nonlinear_arith)
        requires
            0 <= a <= b,
            0 <= c <= d,
    ;
}

/// The name of the baseline of a decode projection.
pub fn decode_baseline_name(hidden_size: u64) -> (name: String)
    ensures
        name@ == "decode_projection_matmul_f16_1x"@ + decimal(hidden_size as nat) + "x"@ + decimal(
            hidden_size as nat,
        ) + "_baseline_hot"@,
{
    let size = decimal_u64(hidden_size);
    cat5(
        "decode_projection_matmul_f16_1x",
        size.as_str(),
        "x",
        size.as_str(),
        "_baseline_hot",
    )
}

/// The name of a decode projection.
pub fn decode_projection_name(hidden_size: u64) -> (name: String)
    ensures
        name@ == "decode_projection_matvec_f16_"@ + decimal(hidden_size as nat) + "x"@ + decimal(
            hidden_size as nat,
        ) + "_hot"@,
{
    let size = decimal_u64(hidden_size);
    cat5("decode_projection_matvec_f16_", size.as_str(), "x", size.as_str(), "_hot")
}

/// The name of a prefill projection.
pub fn prefill_projection_name(tokens: u64, hidden_size: u64) -> (name: String)
    ensures
        name@ == "prefill_projection_f16_"@ + decimal(tokens as nat) + "x"@ + decimal(
            hidden_size as nat,
        ) + "x"@ + (decimal(hidden_size as nat) + "_hot"@),
{
    let size = decimal_u64(hidden_size);
    let tail = cat2(size.as_str(), "_hot");
    cat6(
        "prefill_projection_f16_",
        decimal_u64(tokens).as_str(),
        "x",
        size.as_str(),
        "x",
        tail.as_str(),
    )
}

/// The model's name where its directory gives none.
pub fn model_id(directory: Option<String>) -> (id: String)
    ensures
        id@ == match directory {
            Some(name) => name@,
            None => "qwen-local"@,
        },
{
    match directory {
        Some(name) => name,
        None => "qwen-local".to_owned(),
    }
}

/// The sizes of the files that a benchmark found.
#[derive(Debug, Clone, Copy, PartialEq, Eq, Structural)]
pub struct PhaseBenchmarkArtifacts {
    pub tokenizer_json_bytes: Option<u64>,
    pub safetensors_index_bytes: Option<u64>,
    pub safetensors_total_size_bytes: Option<u64>,
    pub safetensors_total_parameters: Option<u64>,
}

/// The total size is the one of the index, else that of the file.
pub open spec fn found_artifacts(
    tokenizer_json_bytes: Option<u64>,
    index: Option<SafetensorsIndexSummary>,
    safetensors_bytes: Option<u64>,
) -> PhaseBenchmarkArtifacts {
    PhaseBenchmarkArtifacts {
        tokenizer_json_bytes,
        safetensors_index_bytes: match index {
            Some(index) => Some(index.index_bytes),
            None => None,
        },
        safetensors_total_size_bytes: if index is Some && index->0.total_size_bytes is Some {
            index->0.total_size_bytes
        } else {
            safetensors_bytes
        },
        safetensors_total_parameters: match index {
            Some(index) => index.total_parameters,
            None => None,
        },
    }
}

pub fn artifacts(
    tokenizer_json_bytes: Option<u64>,
    index: Option<SafetensorsIndexSummary>,
    safetensors_bytes: Option<u64>,
) -> (artifacts: PhaseBenchmarkArtifacts)
    ensures
        artifacts == found_artifacts(tokenizer_json_bytes, index, safetensors_bytes),
{
    match index {
        Some(index) => PhaseBenchmarkArtifacts {
            tokenizer_json_bytes,
            safetensors_index_bytes: Some(index.index_bytes),
            safetensors_total_size_bytes: match index.total_size_bytes {
                Some(size) => Some(size),
                None => safetensors_bytes,
            },
            safetensors_total_parameters: index.total_parameters,
        },
        None => PhaseBenchmarkArtifacts {
            tokenizer_json_bytes,
            safetensors_index_bytes: None,
            safetensors_total_size_bytes: safetensors_bytes,
            safetensors_total_parameters: None,
        },
    }
}

/// What a layer multiplies by is its seven matrices: queries and output as wide
/// as the hidden state both ways, keys and values as wide as their heads, and
/// the three of the feed-forward part.
pub proof fn layer_weights_are_seven_matrices(layer: LayerFacts, run: QwenRuntimeConfig, config: QwenConfig)
    requires
        layer_refusal(layer, run, 0) is None,
        config.hidden_size == run.hidden_size,
        config.intermediate_size == run.intermediate_size,
        config.num_key_value_heads == run.num_key_value_heads,
        config.head_dim == run.head_dim,
    ensures
        layer_weights(config) == layer.q_proj.out_dim * layer.q_proj.in_dim + layer.k_proj.out_dim
            * layer.k_proj.in_dim + layer.v_proj.out_dim * layer.v_proj.in_dim
            + layer.o_proj.out_dim * layer.o_proj.in_dim + layer.gate_proj.out_dim
            * layer.gate_proj.in_dim + layer.up_proj.out_dim * layer.up_proj.in_dim
            + layer.down_proj.out_dim * layer.down_proj.in_dim,
{
    parts_of_a_layer_fit_together(layer, run, 0);
    let hidden = config.hidden_size as int;
    let wide = config.intermediate_size as int;
    let kv = config.num_key_value_heads * config.head_dim;
    assert(2 * hidden * hidden + 2 * hidden * kv + 3 * hidden * wide == hidden * hidden + kv
        * hidden + kv * hidden + hidden * hidden + wide * hidden + wide * hidden + hidden * wide)
        by (nonlinear_arith);
}

/// A prompt takes the operations of its parts and those by which each token of
/// one part attends to each of the other, in every head of every layer a product
/// for the score and one for the sum, both ways.
pub proof fn parts_of_a_prompt_attend_to_each_other(left: nat, right: nat, config: QwenConfig)
    ensures
        prefill_ops((left + right) as int, config) == prefill_ops(left as int, config)
            + prefill_ops(right as int, config) + 2 * (4 * config.num_hidden_layers
            * config.num_attention_heads * config.head_dim * left * right),
{
    let weights = layer_weights(config);
    let layers = config.num_hidden_layers as int;
    let heads = config.num_attention_heads as int;
    let dim = config.head_dim as int;
    let (a, b) = (left as int, right as int);
    let n = a + b;
    let q = 4 * heads * dim;
    assert(4 * heads * n * n * dim == q * (n * n)) by (nonlinear_arith)
        requires
            q == 4 * heads * dim,
    ;
    assert(4 * heads * a * a * dim == q * (a * a)) by (nonlinear_arith)
        requires
            q == 4 * heads * dim,
    ;
    assert(4 * heads * b * b * dim == q * (b * b)) by (nonlinear_arith)
        requires
            q == 4 * heads * dim,
    ;
    assert(n * n == a * a + b * b + 2 * (a * b)) by (nonlinear_arith)
        requires
            n == a + b,
    ;
    assert(q * (a * a + b * b + 2 * (a * b)) == q * (a * a) + q * (b * b) + 2 * (q * (a * b)))
        by (nonlinear_arith);
    assert(2 * n * weights == 2 * a * weights + 2 * b * weights) by (nonlinear_arith)
        requires
            n == a + b,
    ;
    let x = 2 * a * weights + q * (a * a);
    let y = 2 * b * weights + q * (b * b);
    let z = q * (a * b);
    assert(layers * (x + y + 2 * z) == layers * x + layers * y + 2 * (layers * z))
        by (nonlinear_arith);
    assert(layers * z == 4 * layers * heads * dim * a * b) by (nonlinear_arith)
        requires
            z == q * (a * b),
            q == 4 * heads * dim,
    ;
}

/// A single token takes in every layer a multiplication and an addition for each
/// weight, and for each number of each head those of the score and of the sum.
pub proof fn one_token_meets_every_weight(config: QwenConfig)
    ensures
        prefill_ops(1, config) == 2 * (config.num_hidden_layers * layer_weights(config)) + 4 * (
        config.num_hidden_layers * (config.num_attention_heads * config.head_dim)),
        prefill_ops(0, config) == 0,
{
    let weights = layer_weights(config);
    let layers = config.num_hidden_layers as int;
    let heads = config.num_attention_heads as int;
    let dim = config.head_dim as int;
    assert(layers * (2 * 1 * weights + 4 * heads * 1 * 1 * dim) == 2 * (layers * weights) + 4 * (
    layers * (heads * dim))) by (nonlinear_arith);
    assert(layers * (2 * 0 * weights + 4 * heads * 0 * 0 * dim) == 0) by (nonlinear_arith);
}

/// Each further token of the prompt costs the first decoded token the same: in
/// every head of every layer a product for the score and one for the sum.
pub proof fn each_past_token_is_attended_to(prompt_tokens: nat, config: QwenConfig)
    ensures
        first_decode_ops((prompt_tokens + 1) as int, config) == first_decode_ops(
            prompt_tokens as int,
            config,
        ) + 4 * config.num_hidden_layers * config.num_attention_heads * config.head_dim,
{
    let weights = layer_weights(config);
    let layers = config.num_hidden_layers as int;
    let heads = config.num_attention_heads as int;
    let dim = config.head_dim as int;
    let past = prompt_tokens as int;
    assert(layers * (2 * weights + 4 * heads * (past + 1) * dim) == layers * (2 * weights + 4 * heads
        * past * dim) + 4 * layers * heads * dim) by (nonlinear_arith);
}

/// The sizes of a report: those of the index where there is one, and the size of
/// the file where the index does not tell that of all files together.
pub proof fn artifacts_come_from_the_index_first(
    tokenizer_json_bytes: Option<u64>,
    index: SafetensorsIndexSummary,
    safetensors_bytes: Option<u64>,
)
    ensures
        ({
            let found = found_artifacts(tokenizer_json_bytes, Some(index), safetensors_bytes);
            let alone = found_artifacts(tokenizer_json_bytes, None, safetensors_bytes);
            &&& found.tokenizer_json_bytes == tokenizer_json_bytes
            &&& alone.tokenizer_json_bytes == tokenizer_json_bytes
            &&& found.safetensors_index_bytes == Some(index.index_bytes)
            &&& alone.safetensors_index_bytes is None
            &&& found.safetensors_total_parameters == index.total_parameters
            &&& alone.safetensors_total_parameters is None
            &&& alone.safetensors_total_size_bytes == safetensors_bytes
            &&& index.total_size_bytes is None ==> found.safetensors_total_size_bytes
                == safetensors_bytes
            &&& index.total_size_bytes is Some ==> found.safetensors_total_size_bytes
                == index.total_size_bytes
        }),
{
}

/// A list of token counts is read entry by entry: what two parts of it give, the
/// whole gives one behind the other. An empty entry gives nothing, one that is a
/// number above zero gives that, and any other refuses the list.
pub proof fn token_counts_are_read_entry_by_entry(
    earlier: Seq<Seq<char>>,
    later: Seq<Seq<char>>,
    entry: Seq<char>,
)
    ensures
        token_counts(earlier) is Ok && token_counts(later) is Ok ==> token_counts(earlier + later)
            == Ok::<Seq<u64>, Refusal>(token_counts(earlier)->Ok_0 + token_counts(later)->Ok_0),
        token_counts(earlier) is Err ==> token_counts(earlier + later) == token_counts(earlier),
        token_counts(earlier) is Ok && token_counts(later) is Err ==> token_counts(earlier + later)
            == token_counts(later),
        trimmed(entry).len() == 0 ==> token_counts(seq![entry]) == Ok::<Seq<u64>, Refusal>(
            Seq::empty(),
        ),
        forall|count: u64|
            trimmed(entry) == decimal(count as nat) && count > 0 ==> #[trigger] token_counts(
                seq![entry],
            ) == Ok::<Seq<u64>, Refusal>(seq![count]),
        trimmed(entry) == decimal(0) ==> token_counts(seq![entry]) is Err,
    decreases later.len(),
{
    let alone = seq![entry];
    assert(alone.drop_last() =~= Seq::<Seq<char>>::empty());
    reveal_with_fuel(token_counts, 2);
    assert forall|count: u64| trimmed(entry) == decimal(count as nat) && count > 0 implies
        #[trigger] token_counts(alone) == Ok::<Seq<u64>, Refusal>(seq![count]) by {
        decimal_reads_back(count as nat, u64::MAX as nat);
        lemma_decimal_is_some(count as nat);
        assert(Seq::<u64>::empty().push(count) =~= seq![count]);
    }
    if trimmed(entry) == decimal(0) {
        decimal_reads_back(0, u64::MAX as nat);
        lemma_decimal_is_some(0);
    }
    if later.len() == 0 {
        assert(earlier + later =~= earlier);
        if token_counts(earlier) is Ok {
            assert(token_counts(earlier)->Ok_0 + Seq::<u64>::empty() =~= token_counts(
                earlier,
            )->Ok_0);
        }
    } else {
        let fewer = later.drop_last();
        token_counts_are_read_entry_by_entry(earlier, fewer, entry);
        assert((earlier + later).drop_last() =~= earlier + fewer);
        assert((earlier + later).last() == later.last());
        if token_counts(earlier) is Ok && token_counts(later) is Ok {
            assert(token_counts(earlier + later)->Ok_0 =~= token_counts(earlier)->Ok_0
                + token_counts(later)->Ok_0);
        }
    }
}

proof fn lemma_decimal_is_some(value: nat)
    ensures
        decimal(value).len() > 0,
{
    reveal_with_fuel(decimal, 2);
}

/// A benchmark is run just on a list that can be read and holds a count, at least
/// once.
pub proof fn benchmarks_need_a_count(iterations: u32, input: Seq<char>)
    ensures
        phase_tokens(iterations, input) is Ok <==> iterations > 0 && token_counts(
            pieces(input, ','),
        ) is Ok && token_counts(pieces(input, ','))->Ok_0.len() > 0,
        phase_tokens(iterations, input) is Ok ==> phase_tokens(iterations, input) == token_counts(
            pieces(input, ','),
        ),
{
}

} // verus!
