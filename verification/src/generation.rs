//! A run of a model: what is checked, when it stops, and what is counted.

use crate::error::{config_error, config_outcome, TinyAgentError};
use crate::model::QwenProjectionBackend;
use crate::text::same_text;
use vstd::prelude::*;

verus! {

/// The token that ends a turn.
pub const QWEN_IM_END: u32 = 151_645;

/// The token that ends a text.
pub const QWEN_END_OF_TEXT: u32 = 151_643;

/// A run of an MLX checkpoint.
#[derive(Debug, Clone, PartialEq, Eq)]
pub struct QwenMlxRunConfig {
    pub hf_dir: String,
    pub prompt: String,
    pub max_tokens: usize,
    pub max_prompt_tokens: usize,
    pub projection_backend: QwenProjectionBackend,
}

/// A run of a GGUF file.
#[derive(Debug, Clone, PartialEq, Eq)]
pub struct QwenGgufRunConfig {
    pub gguf_path: String,
    pub tokenizer_dir: String,
    pub prompt: String,
    pub max_tokens: usize,
    pub max_prompt_tokens: usize,
    pub projection_backend: QwenProjectionBackend,
}

/// The refusal of a run without tokens.
pub open spec fn limits_checked(max_tokens: usize, max_prompt_tokens: usize) -> Result<
    (),
    Seq<char>,
> {
    if max_tokens == 0 {
        Err("max_tokens must be greater than zero"@)
    } else if max_prompt_tokens == 0 {
        Err("max_prompt_tokens must be greater than zero"@)
    } else {
        Ok(())
    }
}

fn check_limits(max_tokens: usize, max_prompt_tokens: usize) -> (result: Result<
    (),
    TinyAgentError,
>)
    ensures
        config_outcome(result, limits_checked(max_tokens, max_prompt_tokens)),
{
    if max_tokens == 0 {
        return Err(config_error("max_tokens must be greater than zero"));
    }
    if max_prompt_tokens == 0 {
        return Err(config_error("max_prompt_tokens must be greater than zero"));
    }
    Ok(())
}

impl QwenMlxRunConfig {
    pub fn check(&self) -> (result: Result<(), TinyAgentError>)
        ensures
            config_outcome(result, limits_checked(self.max_tokens, self.max_prompt_tokens)),
    {
        check_limits(self.max_tokens, self.max_prompt_tokens)
    }
}

impl QwenGgufRunConfig {
    pub fn check(&self) -> (result: Result<(), TinyAgentError>)
        ensures
            config_outcome(result, limits_checked(self.max_tokens, self.max_prompt_tokens)),
    {
        check_limits(self.max_tokens, self.max_prompt_tokens)
    }
}

/// Whether a token ends the generation.
pub open spec fn is_stop(token_id: u32) -> bool {
    token_id == QWEN_IM_END || token_id == QWEN_END_OF_TEXT
}

/// What a generation waits for.
#[derive(Debug, Clone, Copy, PartialEq, Eq, Structural)]
pub enum GenerationStep {
    /// The token that follows this one, which stands at this position.
    Decode { token_id: u32, position: usize },
    Finished,
}

/// The tokens generated so far behind a prompt.
#[derive(Debug)]
pub struct Generation {
    input_len: usize,
    max_tokens: usize,
    generated: Vec<u32>,
    finished: bool,
}

/// The mathematical value of a `Generation`.
#[verifier::ext_equal]
pub struct GenerationState {
    pub input_len: nat,
    pub max_tokens: nat,
    pub generated: Seq<u32>,
    pub finished: bool,
}

impl View for Generation {
    type V = GenerationState;

    closed spec fn view(&self) -> GenerationState {
        GenerationState {
            input_len: self.input_len as nat,
            max_tokens: self.max_tokens as nat,
            generated: self.generated@,
            finished: self.finished,
        }
    }
}

impl GenerationState {
    /// No more tokens than asked for, none of them one that ends the
    /// generation, and all positions can be counted.
    pub open spec fn wf(self) -> bool {
        &&& self.generated.len() <= self.max_tokens
        &&& self.generated.len() == self.max_tokens ==> self.finished
        &&& self.input_len + self.max_tokens + 1 <= usize::MAX
        &&& forall|i: int| 0 <= i < self.generated.len() ==> !is_stop(#[trigger] self.generated[i])
    }

    /// The generation after one more predicted token.
    pub open spec fn after(self, next_id: u32) -> GenerationState {
        if is_stop(next_id) {
            GenerationState { finished: true, ..self }
        } else {
            let generated = self.generated.push(next_id);
            GenerationState { generated, finished: generated.len() == self.max_tokens, ..self }
        }
    }

    /// What the generation waits for after its last token.
    pub open spec fn step(self) -> GenerationStep {
        if self.finished {
            GenerationStep::Finished
        } else {
            GenerationStep::Decode {
                token_id: self.generated.last(),
                position: (self.input_len + self.generated.len() - 1) as usize,
            }
        }
    }
}

/// The tokens that are kept of a row of predictions: those before the first
/// that ends the generation, and no more than asked for.
pub open spec fn kept(predictions: Seq<u32>, max_tokens: nat) -> Seq<u32>
    decreases max_tokens,
{
    if max_tokens == 0 || predictions.len() == 0 || is_stop(predictions[0]) {
        Seq::empty()
    } else {
        seq![predictions[0]] + kept(predictions.drop_first(), (max_tokens - 1) as nat)
    }
}

/// The state after a row of predictions; what comes after the end is ignored.
pub open spec fn run(state: GenerationState, predictions: Seq<u32>) -> GenerationState
    decreases predictions.len(),
{
    if predictions.len() == 0 || state.finished {
        state
    } else {
        run(state.after(predictions[0]), predictions.drop_first())
    }
}

/// A generation ends with just the tokens that are to be kept of what was
/// predicted.
pub proof fn run_keeps(state: GenerationState, predictions: Seq<u32>)
    requires
        state.wf(),
        !state.finished,
    ensures
        run(state, predictions).wf(),
        run(state, predictions).generated == state.generated + kept(
            predictions,
            (state.max_tokens - state.generated.len()) as nat,
        ),
    decreases predictions.len(),
{
    let room = (state.max_tokens - state.generated.len()) as nat;
    if predictions.len() == 0 {
        assert(state.generated + kept(predictions, room) =~= state.generated);
    } else {
        let next = state.after(predictions[0]);
        let rest = predictions.drop_first();
        if next.finished {
            assert(run(next, rest) == next);
            if is_stop(predictions[0]) {
                assert(state.generated + kept(predictions, room) =~= state.generated);
            } else {
                assert(kept(rest, 0) =~= Seq::<u32>::empty());
                assert(state.generated + kept(predictions, room) =~= next.generated);
            }
        } else {
            run_keeps(next, rest);
            assert(state.generated + kept(predictions, room) =~= next.generated + kept(
                rest,
                (room - 1) as nat,
            ));
        }
    }
}

/// How many tokens are decoded on a row of predictions: one whenever the
/// generation goes on.
pub open spec fn decode_steps(state: GenerationState, predictions: Seq<u32>) -> nat
    decreases predictions.len(),
{
    if predictions.len() == 0 || state.finished {
        0
    } else {
        let next = state.after(predictions[0]);
        let rest = decode_steps(next, predictions.drop_first());
        match next.step() {
            GenerationStep::Decode { .. } => 1 + rest,
            GenerationStep::Finished => rest,
        }
    }
}

/// Every token that is kept is decoded, but for the last that was asked for.
pub proof fn kept_tokens_are_decoded(state: GenerationState, predictions: Seq<u32>)
    requires
        state.wf(),
        !state.finished,
    ensures
        ({
            let room = (state.max_tokens - state.generated.len()) as nat;
            let count = kept(predictions, room).len();
            decode_steps(state, predictions) == if count < room {
                count as int
            } else {
                room - 1
            }
        }),
    decreases predictions.len(),
{
    if predictions.len() > 0 {
        let next = state.after(predictions[0]);
        if !next.finished {
            kept_tokens_are_decoded(next, predictions.drop_first());
        } else {
            assert(decode_steps(next, predictions.drop_first()) == 0);
            if !is_stop(predictions[0]) {
                assert(kept(predictions.drop_first(), 0).len() == 0);
            }
        }
    }
}

impl Generation {
    /// A generation that waits for its first token.
    pub fn begin(input_len: usize, max_tokens: usize) -> (generation: Self)
        requires
            max_tokens > 0,
            input_len + max_tokens + 1 <= usize::MAX,
        ensures
            generation@.wf(),
            generation@ == (GenerationState {
                input_len: input_len as nat,
                max_tokens: max_tokens as nat,
                generated: Seq::empty(),
                finished: false,
            }),
    {
        let generation = Generation {
            input_len,
            max_tokens,
            generated: Vec::new(),
            finished: false,
        };
        assert(generation@.generated =~= Seq::<u32>::empty());
        generation
    }

    /// Takes the token that was predicted, and says what to do next.
    pub fn accept(&mut self, next_id: u32) -> (step: GenerationStep)
        requires
            old(self)@.wf(),
            !old(self)@.finished,
        ensures
            final(self)@.wf(),
            final(self)@ == old(self)@.after(next_id),
            step == final(self)@.step(),
    {
        if next_id == QWEN_IM_END || next_id == QWEN_END_OF_TEXT {
            self.finished = true;
            return GenerationStep::Finished;
        }
        self.generated.push(next_id);
        if self.generated.len() == self.max_tokens {
            self.finished = true;
            return GenerationStep::Finished;
        }
        GenerationStep::Decode {
            token_id: next_id,
            position: self.input_len + self.generated.len() - 1,
        }
    }

    pub fn generated(&self) -> (tokens: &Vec<u32>)
        ensures
            tokens@ == self@.generated,
    {
        &self.generated
    }
}

/// How many positions the caches of a run need.
pub fn cache_positions(input_len: usize, max_tokens: usize) -> (positions: usize)
    requires
        input_len + max_tokens + 1 <= usize::MAX,
    ensures
        positions == input_len + max_tokens + 1,
{
    input_len + max_tokens + 1
}

/// Every position that a generation asks for lies within the caches.
pub proof fn decoded_positions_fit(state: GenerationState)
    requires
        state.wf(),
        state.generated.len() > 0,
    ensures
        state.step() matches GenerationStep::Decode { position, .. } ==> position < state.input_len
            + state.max_tokens + 1,
{
}

/// What is counted of a run.
#[derive(Debug, Clone, Copy, PartialEq, Eq, Structural)]
pub struct RunCounts {
    pub eval_tokens: usize,
    pub decode_eval_tokens: usize,
    pub q4_projection_groups_per_eval_token: usize,
    pub q4_projection_groups_total: usize,
}

/// How many groups of projections a layer takes per token.
pub open spec fn groups_per_layer(backend: QwenProjectionBackend) -> nat {
    match backend {
        QwenProjectionBackend::Cpu => 7,
        QwenProjectionBackend::Metal => 4,
    }
}

/// The counts of a run on `input_len` tokens with `decoded` decoded ones. The
/// logits are projected once for the prompt and once per decoded token.
pub fn run_counts(
    backend: QwenProjectionBackend,
    num_hidden_layers: usize,
    input_len: usize,
    decoded: usize,
) -> (counts: RunCounts)
    requires
        input_len + decoded < usize::MAX,
        num_hidden_layers * groups_per_layer(backend) + 1 <= usize::MAX,
        num_hidden_layers * groups_per_layer(backend) * (input_len + decoded) + 1 + decoded
            <= usize::MAX,
    ensures
        counts.eval_tokens == input_len + decoded,
        counts.decode_eval_tokens == decoded,
        counts.q4_projection_groups_per_eval_token == num_hidden_layers * groups_per_layer(
            backend,
        ) + 1,
        counts.q4_projection_groups_total == num_hidden_layers * groups_per_layer(backend) * (
        input_len + decoded) + 1 + decoded,
{
    let per_layer: usize = match backend {
        QwenProjectionBackend::Cpu => 7,
        QwenProjectionBackend::Metal => 4,
    };
    let per_token: usize = num_hidden_layers * per_layer;
    let eval_tokens: usize = input_len + decoded;
    proof {
        assert(0 <= per_token * eval_tokens) by (nonlinear_arith)
            requires
                0 <= per_token,
                0 <= eval_tokens,
        ;
    }
    RunCounts {
        eval_tokens,
        decode_eval_tokens: decoded,
        q4_projection_groups_per_eval_token: per_token + 1,
        q4_projection_groups_total: per_token * eval_tokens + (1 + decoded),
    }
}

/// What is said of a run, by the format of the model and the backend.
pub open spec fn note_of(model_format: Seq<char>, backend: QwenProjectionBackend) -> Seq<char> {
    if model_format == "mlx-affine-q4"@ {
        match backend {
            QwenProjectionBackend::Cpu => "CPU reference end-to-end over real MLX 4-bit Qwen weights; this validates model graph and q4 affine loading."@,
            QwenProjectionBackend::Metal => "Hybrid TinyEngine end-to-end over real MLX 4-bit Qwen weights: q4 affine projections run on reusable Metal kernels with GPU-resident q4 tensors; prompt prefill is batched and decode layers use Metal scalar kernels when supported."@,
        }
    } else if model_format == "gguf-q4_0"@ {
        match backend {
            QwenProjectionBackend::Cpu => "CPU reference end-to-end over GGUF Q4_0 Qwen weights."@,
            QwenProjectionBackend::Metal => "Hybrid TinyEngine end-to-end over the same GGUF Q4_0 file used by llama.cpp: prompt prefill uses batched Q4_0 Metal matmul; decode keeps hidden/KV/scalar ops/attention on Metal and uses Q8_0 lm_head plus argmax on Metal."@,
        }
    } else {
        "TinyEngine Qwen end-to-end run."@
    }
}

pub fn run_note(model_format: &str, backend: QwenProjectionBackend) -> (note: String)
    ensures
        note@ == note_of(model_format@, backend),
{
    if same_text(model_format, "mlx-affine-q4") {
        match backend {
            QwenProjectionBackend::Cpu => "CPU reference end-to-end over real MLX 4-bit Qwen weights; this validates model graph and q4 affine loading.".to_owned(),
            QwenProjectionBackend::Metal => "Hybrid TinyEngine end-to-end over real MLX 4-bit Qwen weights: q4 affine projections run on reusable Metal kernels with GPU-resident q4 tensors; prompt prefill is batched and decode layers use Metal scalar kernels when supported.".to_owned(),
        }
    } else if same_text(model_format, "gguf-q4_0") {
        match backend {
            QwenProjectionBackend::Cpu => "CPU reference end-to-end over GGUF Q4_0 Qwen weights.".to_owned(),
            QwenProjectionBackend::Metal => "Hybrid TinyEngine end-to-end over the same GGUF Q4_0 file used by llama.cpp: prompt prefill uses batched Q4_0 Metal matmul; decode keeps hidden/KV/scalar ops/attention on Metal and uses Q8_0 lm_head plus argmax on Metal.".to_owned(),
        }
    } else {
        "TinyEngine Qwen end-to-end run.".to_owned()
    }
}

/// What is kept of a row of predictions is its beginning: as much of it as there
/// is, up to the number that was asked for, and up to the first token that ends
/// a turn or a text.
pub proof fn kept_is_the_beginning(predictions: Seq<u32>, max_tokens: nat)
    ensures
        ({
            let count = kept(predictions, max_tokens).len();
            &&& count <= predictions.len() && count <= max_tokens
            &&& kept(predictions, max_tokens) == predictions.take(count as int)
            &&& forall|i: int|
                0 <= i < count ==> #[trigger] predictions[i] != 151_645 && predictions[i]
                    != 151_643
            &&& count == predictions.len() || count == max_tokens || predictions[count as int]
                == 151_645 || predictions[count as int] == 151_643
        }),
    decreases max_tokens,
{
    if max_tokens == 0 || predictions.len() == 0 || is_stop(predictions[0]) {
        assert(kept(predictions, max_tokens) =~= predictions.take(0));
    } else {
        let rest = predictions.drop_first();
        kept_is_the_beginning(rest, (max_tokens - 1) as nat);
        let tail = kept(rest, (max_tokens - 1) as nat);
        let count = 1 + tail.len();
        assert(kept(predictions, max_tokens) =~= predictions.take(count as int));
        assert forall|i: int| 0 <= i < count implies #[trigger] predictions[i] != 151_645
            && predictions[i] != 151_643 by {
            if i > 0 {
                assert(rest[i - 1] == predictions[i]);
            }
        }
        if tail.len() < rest.len() {
            assert(rest[tail.len() as int] == predictions[count as int]);
        }
    }
}

/// The positions behind the prompt are filled one after the other: where the
/// generation goes on, the token that was just taken is decoded at the position
/// that follows the prompt and the tokens before it.
pub proof fn tokens_are_decoded_in_their_order(state: GenerationState, next_id: u32)
    requires
        state.wf(),
        !state.finished,
    ensures
        ({
            let after = state.after(next_id);
            &&& after.input_len == state.input_len && after.max_tokens == state.max_tokens
            &&& next_id == 151_645 || next_id == 151_643 ==> after.step()
                == GenerationStep::Finished && after.generated == state.generated
            &&& next_id != 151_645 && next_id != 151_643 ==> after.generated
                == state.generated.push(next_id) && after.step() == if state.generated.len() + 1
                == state.max_tokens {
                GenerationStep::Finished
            } else {
                GenerationStep::Decode {
                    token_id: next_id,
                    position: (state.input_len + state.generated.len()) as usize,
                }
            }
        }),
{
}

/// A run is asked for something just where there may be a token of either kind.
pub proof fn runs_need_tokens(max_tokens: usize, max_prompt_tokens: usize)
    ensures
        limits_checked(max_tokens, max_prompt_tokens) is Ok <==> max_tokens > 0
            && max_prompt_tokens > 0,
{
}

} // verus!
