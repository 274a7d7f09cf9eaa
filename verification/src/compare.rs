//! The comparison with llama.cpp: what is asked, run and matched.

use crate::hf_config::text_outcome;
use crate::stats::{median, median_stands_in_the_middle, middle_of, Middle};
use crate::text::{
    cat2, cat4, decimal, decimal_i32, decimal_u64, decimal_usize, same_text, signed_decimal, views,
};
use crate::timings::{stderr_tail, tail};
use vstd::prelude::*;

verus! {

/// Where the engine's weights come from.
#[derive(Debug, Clone, Copy, PartialEq, Eq, Structural)]
pub enum CompareSource {
    Mlx,
    Gguf,
}

/// A path that was looked up: how it is shown, and whether it is what it has
/// to be.
#[derive(Debug, Clone, PartialEq, Eq)]
pub struct LookedUp {
    pub shown: String,
    pub found: bool,
}

/// The first refusal of a comparison.
pub open spec fn compare_checked(
    limits: (usize, usize, usize),
    hf_dir: LookedUp,
    gguf: LookedUp,
    llama_bin: LookedUp,
) -> Result<(), Seq<char>> {
    let (runs, max_tokens, max_prompt_tokens) = limits;
    if runs == 0 {
        Err("compare runs must be greater than zero"@)
    } else if max_tokens == 0 {
        Err("max_tokens must be greater than zero"@)
    } else if max_prompt_tokens == 0 {
        Err("max_prompt_tokens must be greater than zero"@)
    } else if !hf_dir.found {
        Err("TinyEngine HF/MLX model or tokenizer directory does not exist: "@ + hf_dir.shown@)
    } else if !gguf.found {
        Err("llama.cpp GGUF model does not exist: "@ + gguf.shown@)
    } else if !llama_bin.found {
        Err("llama.cpp completion binary does not exist: "@ + llama_bin.shown@)
    } else {
        Ok(())
    }
}

/// Whether a comparison can be run. The directory has to be a directory, the
/// model and the program have to be files.
pub fn check_compare(
    runs: usize,
    max_tokens: usize,
    max_prompt_tokens: usize,
    hf_dir: &LookedUp,
    gguf: &LookedUp,
    llama_bin: &LookedUp,
) -> (result: Result<(), String>)
    ensures
        text_outcome(
            result,
            compare_checked((runs, max_tokens, max_prompt_tokens), *hf_dir, *gguf, *llama_bin),
        ),
{
    if runs == 0 {
        return Err("compare runs must be greater than zero".to_owned());
    }
    if max_tokens == 0 {
        return Err("max_tokens must be greater than zero".to_owned());
    }
    if max_prompt_tokens == 0 {
        return Err("max_prompt_tokens must be greater than zero".to_owned());
    }
    if !hf_dir.found {
        return Err(
            cat2(
                "TinyEngine HF/MLX model or tokenizer directory does not exist: ",
                hf_dir.shown.as_str(),
            ),
        );
    }
    if !gguf.found {
        return Err(cat2("llama.cpp GGUF model does not exist: ", gguf.shown.as_str()));
    }
    if !llama_bin.found {
        return Err(
            cat2("llama.cpp completion binary does not exist: ", llama_bin.shown.as_str()),
        );
    }
    Ok(())
}

/// What a run of llama.cpp is asked for.
#[derive(Debug, Clone, PartialEq, Eq)]
pub struct CompletionOptions {
    pub gguf: String,
    pub max_tokens: usize,
    pub seed: u64,
    pub gpu_layers: i32,
    pub ctx_size: u32,
    pub llama_warmup: bool,
}

/// The arguments of a deterministic completion of a prompt.
pub open spec fn completion_argv(options: CompletionOptions, prompt: Seq<char>) -> Seq<Seq<char>> {
    let always = seq![
        "-m"@,
        options.gguf@,
        "-p"@,
        prompt,
        "-n"@,
        decimal(options.max_tokens as nat),
        "--temp"@,
        "0"@,
        "--top-k"@,
        "1"@,
        "--seed"@,
        decimal(options.seed as nat),
        "--no-display-prompt"@,
        "-no-cnv"@,
        "--simple-io"@,
        "-ngl"@,
        signed_decimal(options.gpu_layers as int),
        "-c"@,
        decimal(options.ctx_size as nat),
    ];
    if options.llama_warmup {
        always
    } else {
        always.push("--no-warmup"@)
    }
}

impl CompletionOptions {
    pub fn argv(&self, formatted_prompt: &str) -> (argv: Vec<String>)
        ensures
            views(argv@) == completion_argv(*self, formatted_prompt@),
    {
        let mut argv: Vec<String> = Vec::new();
        argv.push("-m".to_owned());
        argv.push(self.gguf.clone());
        argv.push("-p".to_owned());
        argv.push(formatted_prompt.to_owned());
        argv.push("-n".to_owned());
        argv.push(decimal_usize(self.max_tokens));
        argv.push("--temp".to_owned());
        argv.push("0".to_owned());
        argv.push("--top-k".to_owned());
        argv.push("1".to_owned());
        argv.push("--seed".to_owned());
        argv.push(decimal_u64(self.seed));
        argv.push("--no-display-prompt".to_owned());
        argv.push("-no-cnv".to_owned());
        argv.push("--simple-io".to_owned());
        argv.push("-ngl".to_owned());
        argv.push(decimal_i32(self.gpu_layers));
        argv.push("-c".to_owned());
        argv.push(decimal_u64(self.ctx_size as u64));
        if !self.llama_warmup {
            argv.push("--no-warmup".to_owned());
        }
        assert(views(argv@) =~= completion_argv(*self, formatted_prompt@));
        argv
    }
}

/// What is said of a run that failed: its status and the end of its output.
pub fn completion_failure(status: &str, stderr: &str) -> (text: String)
    ensures
        text@ == "llama-completion failed with status "@ + status@ + ":\n"@ + tail(stderr@, 40),
{
    cat4(
        "llama-completion failed with status ",
        status,
        ":\n",
        stderr_tail(stderr, 40).as_str(),
    )
}

/// What one run of one engine is matched by.
#[derive(Debug, Clone, PartialEq, Eq)]
pub struct RunFacts {
    pub generated_text: String,
    pub prompt_tokens: usize,
    pub decode_tokens: usize,
}

/// Where two runs agree.
#[derive(Debug, Clone, Copy, PartialEq, Eq, Structural)]
pub struct RunMatch {
    pub generated_text_match: bool,
    pub prompt_token_count_match: bool,
    pub decode_eval_count_match: bool,
}

/// Compares a run of the engine with one of llama.cpp.
pub fn build_apple_to_apple_comparison(tinyengine: &RunFacts, llama_cpp: &RunFacts) -> (matched:
    RunMatch)
    ensures
        matched.generated_text_match == (tinyengine.generated_text@ == llama_cpp.generated_text@),
        matched.prompt_token_count_match == (tinyengine.prompt_tokens == llama_cpp.prompt_tokens),
        matched.decode_eval_count_match == (tinyengine.decode_tokens == llama_cpp.decode_tokens),
{
    RunMatch {
        generated_text_match: same_text(
            tinyengine.generated_text.as_str(),
            llama_cpp.generated_text.as_str(),
        ),
        prompt_token_count_match: tinyengine.prompt_tokens == llama_cpp.prompt_tokens,
        decode_eval_count_match: tinyengine.decode_tokens == llama_cpp.decode_tokens,
    }
}

/// One measured pair of runs; times and rates are bit patterns of doubles.
#[derive(Debug, Clone, Copy, PartialEq, Eq, Structural)]
pub struct MeasuredRun {
    pub matched: RunMatch,
    pub tiny_prompt_eval_ms: u64,
    pub llama_prompt_eval_ms: u64,
    pub tiny_decode_tokens_per_second: u64,
    pub llama_decode_tokens_per_second: u64,
    pub tiny_prompt_speed_ratio_vs_llama: u64,
    pub tiny_decode_speed_ratio_vs_llama: u64,
    pub tiny_total_wall_speed_ratio_vs_llama: u64,
}

/// What all runs have in common.
#[derive(Debug)]
pub struct AppleToAppleSummary {
    pub measured_runs: usize,
    pub all_generated_text_match: bool,
    pub all_prompt_token_counts_match: bool,
    pub all_decode_eval_counts_match: bool,
    pub tiny_prompt_eval_ms_median: Middle,
    pub llama_prompt_eval_ms_median: Middle,
    pub tiny_decode_tokens_per_second_median: Middle,
    pub llama_decode_tokens_per_second_median: Middle,
    pub tiny_prompt_speed_ratio_vs_llama_median: Middle,
    pub tiny_decode_speed_ratio_vs_llama_median: Middle,
    pub tiny_total_wall_speed_ratio_vs_llama_median: Middle,
}

/// The summary of the runs: a match where every run matches, and the middle of
/// each measure.
pub open spec fn summarised(runs: Seq<MeasuredRun>, summary: AppleToAppleSummary) -> bool {
    &&& summary.measured_runs == runs.len()
    &&& summary.all_generated_text_match == (forall|i: int|
        0 <= i < runs.len() ==> (#[trigger] runs[i]).matched.generated_text_match)
    &&& summary.all_prompt_token_counts_match == (forall|i: int|
        0 <= i < runs.len() ==> (#[trigger] runs[i]).matched.prompt_token_count_match)
    &&& summary.all_decode_eval_counts_match == (forall|i: int|
        0 <= i < runs.len() ==> (#[trigger] runs[i]).matched.decode_eval_count_match)
    &&& summary.tiny_prompt_eval_ms_median == middle_of(
        runs.map_values(|run: MeasuredRun| run.tiny_prompt_eval_ms),
    )
    &&& summary.llama_prompt_eval_ms_median == middle_of(
        runs.map_values(|run: MeasuredRun| run.llama_prompt_eval_ms),
    )
    &&& summary.tiny_decode_tokens_per_second_median == middle_of(
        runs.map_values(|run: MeasuredRun| run.tiny_decode_tokens_per_second),
    )
    &&& summary.llama_decode_tokens_per_second_median == middle_of(
        runs.map_values(|run: MeasuredRun| run.llama_decode_tokens_per_second),
    )
    &&& summary.tiny_prompt_speed_ratio_vs_llama_median == middle_of(
        runs.map_values(|run: MeasuredRun| run.tiny_prompt_speed_ratio_vs_llama),
    )
    &&& summary.tiny_decode_speed_ratio_vs_llama_median == middle_of(
        runs.map_values(|run: MeasuredRun| run.tiny_decode_speed_ratio_vs_llama),
    )
    &&& summary.tiny_total_wall_speed_ratio_vs_llama_median == middle_of(
        runs.map_values(|run: MeasuredRun| run.tiny_total_wall_speed_ratio_vs_llama),
    )
}

pub fn build_apple_to_apple_summary(runs: &Vec<MeasuredRun>) -> (summary: AppleToAppleSummary)
    ensures
        summarised(runs@, summary),
{
    let mut texts: bool = true;
    let mut prompts: bool = true;
    let mut decodes: bool = true;
    let mut tiny_prompt: Vec<u64> = Vec::new();
    let mut llama_prompt: Vec<u64> = Vec::new();
    let mut tiny_decode: Vec<u64> = Vec::new();
    let mut llama_decode: Vec<u64> = Vec::new();
    let mut prompt_ratio: Vec<u64> = Vec::new();
    let mut decode_ratio: Vec<u64> = Vec::new();
    let mut wall_ratio: Vec<u64> = Vec::new();
    let mut index: usize = 0;
    while index < runs.len()
        invariant
            index <= runs@.len(),
            texts == (forall|i: int|
                0 <= i < index ==> (#[trigger] runs@[i]).matched.generated_text_match),
            prompts == (forall|i: int|
                0 <= i < index ==> (#[trigger] runs@[i]).matched.prompt_token_count_match),
            decodes == (forall|i: int|
                0 <= i < index ==> (#[trigger] runs@[i]).matched.decode_eval_count_match),
            tiny_prompt@.len() == index,
            llama_prompt@.len() == index,
            tiny_decode@.len() == index,
            llama_decode@.len() == index,
            prompt_ratio@.len() == index,
            decode_ratio@.len() == index,
            wall_ratio@.len() == index,
            forall|i: int|
                0 <= i < index ==> {
                    let run = #[trigger] runs@[i];
                    &&& tiny_prompt@[i] == run.tiny_prompt_eval_ms
                    &&& llama_prompt@[i] == run.llama_prompt_eval_ms
                    &&& tiny_decode@[i] == run.tiny_decode_tokens_per_second
                    &&& llama_decode@[i] == run.llama_decode_tokens_per_second
                    &&& prompt_ratio@[i] == run.tiny_prompt_speed_ratio_vs_llama
                    &&& decode_ratio@[i] == run.tiny_decode_speed_ratio_vs_llama
                    &&& wall_ratio@[i] == run.tiny_total_wall_speed_ratio_vs_llama
                },
        decreases runs@.len() - index,
    {
        let run: MeasuredRun = runs[index];
        assert(run == runs@[index as int]);
        texts = texts && run.matched.generated_text_match;
        prompts = prompts && run.matched.prompt_token_count_match;
        decodes = decodes && run.matched.decode_eval_count_match;
        tiny_prompt.push(run.tiny_prompt_eval_ms);
        llama_prompt.push(run.llama_prompt_eval_ms);
        tiny_decode.push(run.tiny_decode_tokens_per_second);
        llama_decode.push(run.llama_decode_tokens_per_second);
        prompt_ratio.push(run.tiny_prompt_speed_ratio_vs_llama);
        decode_ratio.push(run.tiny_decode_speed_ratio_vs_llama);
        wall_ratio.push(run.tiny_total_wall_speed_ratio_vs_llama);
        index = index + 1;
    }
    proof {
        let all = runs@;
        assert(tiny_prompt@ =~= all.map_values(|run: MeasuredRun| run.tiny_prompt_eval_ms));
        assert(llama_prompt@ =~= all.map_values(|run: MeasuredRun| run.llama_prompt_eval_ms));
        assert(tiny_decode@ =~= all.map_values(
            |run: MeasuredRun| run.tiny_decode_tokens_per_second,
        ));
        assert(llama_decode@ =~= all.map_values(
            |run: MeasuredRun| run.llama_decode_tokens_per_second,
        ));
        assert(prompt_ratio@ =~= all.map_values(
            |run: MeasuredRun| run.tiny_prompt_speed_ratio_vs_llama,
        ));
        assert(decode_ratio@ =~= all.map_values(
            |run: MeasuredRun| run.tiny_decode_speed_ratio_vs_llama,
        ));
        assert(wall_ratio@ =~= all.map_values(
            |run: MeasuredRun| run.tiny_total_wall_speed_ratio_vs_llama,
        ));
    }
    AppleToAppleSummary {
        measured_runs: runs.len(),
        all_generated_text_match: texts,
        all_prompt_token_counts_match: prompts,
        all_decode_eval_counts_match: decodes,
        tiny_prompt_eval_ms_median: median(&tiny_prompt),
        llama_prompt_eval_ms_median: median(&llama_prompt),
        tiny_decode_tokens_per_second_median: median(&tiny_decode),
        llama_decode_tokens_per_second_median: median(&llama_decode),
        tiny_prompt_speed_ratio_vs_llama_median: median(&prompt_ratio),
        tiny_decode_speed_ratio_vs_llama_median: median(&decode_ratio),
        tiny_total_wall_speed_ratio_vs_llama_median: median(&wall_ratio),
    }
}

impl CompareSource {
    /// Whether the engine's weights are measured: only those of an MLX
    /// checkpoint are a file of their own.
    pub fn measures_safetensors(&self) -> (yes: bool)
        ensures
            yes == (*self == CompareSource::Mlx),
    {
        matches!(self, CompareSource::Mlx)
    }

    /// What a report says of how far the two engines compare.
    pub fn note(&self) -> (text: String)
        ensures
            text@ == match *self {
                CompareSource::Mlx => "Same base Qwen2.5 0.5B instruct prompt and deterministic generation settings. Quantization is same class but not bit-identical: TinyEngine uses MLX affine 4-bit weights, llama.cpp uses GGUF weights. llama.cpp decode eval follows its reported convention: max_tokens generated usually means max_tokens - 1 eval runs after prompt eval."@,
                CompareSource::Gguf => "Same Qwen2.5 0.5B GGUF file, same quantized tensors, same prompt, and deterministic generation settings. TinyEngine maps GGUF Q4_0 blocks and GGUF Q8_0 output.weight onto Metal kernels."@,
            },
    {
        match self {
            CompareSource::Mlx => "Same base Qwen2.5 0.5B instruct prompt and deterministic generation settings. Quantization is same class but not bit-identical: TinyEngine uses MLX affine 4-bit weights, llama.cpp uses GGUF weights. llama.cpp decode eval follows its reported convention: max_tokens generated usually means max_tokens - 1 eval runs after prompt eval.".to_owned(),
            CompareSource::Gguf => "Same Qwen2.5 0.5B GGUF file, same quantized tensors, same prompt, and deterministic generation settings. TinyEngine maps GGUF Q4_0 blocks and GGUF Q8_0 output.weight onto Metal kernels.".to_owned(),
        }
    }
}

/// A median that is a value, or the mean of it with itself.
pub open spec fn is_middle(middle: Middle, value: u64) -> bool {
    middle == Middle::One(value) || middle == Middle::Two(value, value)
}

proof fn lemma_middle_of_equals(values: Seq<u64>, value: u64)
    requires
        values.len() > 0,
        forall|i: int| 0 <= i < values.len() ==> #[trigger] values[i] == value,
    ensures
        is_middle(middle_of(values), value),
{
    median_stands_in_the_middle(values);
}

/// Each median of a summary is that of the measure of the same name: where all
/// runs measured the same, it is what they measured.
#[verifier::rlimit(50)]
pub proof fn summaries_tell_each_measure(
    runs: Seq<MeasuredRun>,
    summary: AppleToAppleSummary,
    typical: MeasuredRun,
)
    requires
        summarised(runs, summary),
        runs.len() > 0,
    ensures
        (forall|i: int|
            0 <= i < runs.len() ==> (#[trigger] runs[i]).tiny_prompt_eval_ms
                == typical.tiny_prompt_eval_ms) ==> is_middle(
            summary.tiny_prompt_eval_ms_median,
            typical.tiny_prompt_eval_ms,
        ),
        (forall|i: int|
            0 <= i < runs.len() ==> (#[trigger] runs[i]).llama_prompt_eval_ms
                == typical.llama_prompt_eval_ms) ==> is_middle(
            summary.llama_prompt_eval_ms_median,
            typical.llama_prompt_eval_ms,
        ),
        (forall|i: int|
            0 <= i < runs.len() ==> (#[trigger] runs[i]).tiny_decode_tokens_per_second
                == typical.tiny_decode_tokens_per_second) ==> is_middle(
            summary.tiny_decode_tokens_per_second_median,
            typical.tiny_decode_tokens_per_second,
        ),
        (forall|i: int|
            0 <= i < runs.len() ==> (#[trigger] runs[i]).llama_decode_tokens_per_second
                == typical.llama_decode_tokens_per_second) ==> is_middle(
            summary.llama_decode_tokens_per_second_median,
            typical.llama_decode_tokens_per_second,
        ),
        (forall|i: int|
            0 <= i < runs.len() ==> (#[trigger] runs[i]).tiny_prompt_speed_ratio_vs_llama
                == typical.tiny_prompt_speed_ratio_vs_llama) ==> is_middle(
            summary.tiny_prompt_speed_ratio_vs_llama_median,
            typical.tiny_prompt_speed_ratio_vs_llama,
        ),
        (forall|i: int|
            0 <= i < runs.len() ==> (#[trigger] runs[i]).tiny_decode_speed_ratio_vs_llama
                == typical.tiny_decode_speed_ratio_vs_llama) ==> is_middle(
            summary.tiny_decode_speed_ratio_vs_llama_median,
            typical.tiny_decode_speed_ratio_vs_llama,
        ),
        (forall|i: int|
            0 <= i < runs.len() ==> (#[trigger] runs[i]).tiny_total_wall_speed_ratio_vs_llama
                == typical.tiny_total_wall_speed_ratio_vs_llama) ==> is_middle(
            summary.tiny_total_wall_speed_ratio_vs_llama_median,
            typical.tiny_total_wall_speed_ratio_vs_llama,
        ),
{
    let values = runs.map_values(|run: MeasuredRun| run.tiny_prompt_eval_ms);
    if forall|i: int| 0 <= i < values.len() ==> #[trigger] values[i] == typical.tiny_prompt_eval_ms {
        lemma_middle_of_equals(values, typical.tiny_prompt_eval_ms);
    }
    let values = runs.map_values(|run: MeasuredRun| run.llama_prompt_eval_ms);
    if forall|i: int| 0 <= i < values.len() ==> #[trigger] values[i] == typical.llama_prompt_eval_ms {
        lemma_middle_of_equals(values, typical.llama_prompt_eval_ms);
    }
    let values = runs.map_values(|run: MeasuredRun| run.tiny_decode_tokens_per_second);
    if forall|i: int|
        0 <= i < values.len() ==> #[trigger] values[i] == typical.tiny_decode_tokens_per_second {
        lemma_middle_of_equals(values, typical.tiny_decode_tokens_per_second);
    }
    let values = runs.map_values(|run: MeasuredRun| run.llama_decode_tokens_per_second);
    if forall|i: int|
        0 <= i < values.len() ==> #[trigger] values[i] == typical.llama_decode_tokens_per_second {
        lemma_middle_of_equals(values, typical.llama_decode_tokens_per_second);
    }
    let values = runs.map_values(|run: MeasuredRun| run.tiny_prompt_speed_ratio_vs_llama);
    if forall|i: int|
        0 <= i < values.len() ==> #[trigger] values[i] == typical.tiny_prompt_speed_ratio_vs_llama {
        lemma_middle_of_equals(values, typical.tiny_prompt_speed_ratio_vs_llama);
    }
    let values = runs.map_values(|run: MeasuredRun| run.tiny_decode_speed_ratio_vs_llama);
    if forall|i: int|
        0 <= i < values.len() ==> #[trigger] values[i] == typical.tiny_decode_speed_ratio_vs_llama {
        lemma_middle_of_equals(values, typical.tiny_decode_speed_ratio_vs_llama);
    }
    let values = runs.map_values(|run: MeasuredRun| run.tiny_total_wall_speed_ratio_vs_llama);
    if forall|i: int|
        0 <= i < values.len() ==> #[trigger] values[i]
            == typical.tiny_total_wall_speed_ratio_vs_llama {
        lemma_middle_of_equals(values, typical.tiny_total_wall_speed_ratio_vs_llama);
    }
}

/// A summary counts its runs, and tells that they match just where each of them
/// does.
pub proof fn summaries_match_where_every_run_does(
    runs: Seq<MeasuredRun>,
    summary: AppleToAppleSummary,
    at: int,
)
    requires
        summarised(runs, summary),
        0 <= at < runs.len(),
    ensures
        summary.measured_runs == runs.len(),
        !runs[at].matched.generated_text_match ==> !summary.all_generated_text_match,
        !runs[at].matched.prompt_token_count_match ==> !summary.all_prompt_token_counts_match,
        !runs[at].matched.decode_eval_count_match ==> !summary.all_decode_eval_counts_match,
        !summary.all_generated_text_match ==> exists|i: int|
            0 <= i < runs.len() && !(#[trigger] runs[i]).matched.generated_text_match,
        !summary.all_prompt_token_counts_match ==> exists|i: int|
            0 <= i < runs.len() && !(#[trigger] runs[i]).matched.prompt_token_count_match,
        !summary.all_decode_eval_counts_match ==> exists|i: int|
            0 <= i < runs.len() && !(#[trigger] runs[i]).matched.decode_eval_count_match,
{
}

/// A comparison can be run just where something is asked for and everything is
/// there.
pub proof fn comparisons_need_all_parts(
    limits: (usize, usize, usize),
    hf_dir: LookedUp,
    gguf: LookedUp,
    llama_bin: LookedUp,
)
    ensures
        compare_checked(limits, hf_dir, gguf, llama_bin) is Ok <==> limits.0 > 0 && limits.1 > 0
            && limits.2 > 0 && hf_dir.found && gguf.found && llama_bin.found,
{
}

/// The argument that stands behind a flag, where every flag has one but the
/// three that say how the output looks.
pub open spec fn argument_behind(argv: Seq<Seq<char>>, flag: Seq<char>) -> Option<Seq<char>>
    decreases argv.len(),
{
    if argv.len() < 2 {
        None
    } else if argv[0] == flag {
        Some(argv[1])
    } else if argv[0] == "--no-display-prompt"@ || argv[0] == "-no-cnv"@ || argv[0]
        == "--simple-io"@ {
        argument_behind(argv.skip(1), flag)
    } else {
        argument_behind(argv.skip(2), flag)
    }
}

proof fn lemma_next_flag(argv: Seq<Seq<char>>, at: int, flag: Seq<char>)
    requires
        0 <= at,
        at + 2 <= argv.len(),
        argv[at] != flag,
        argv[at] != "--no-display-prompt"@,
        argv[at] != "-no-cnv"@,
        argv[at] != "--simple-io"@,
    ensures
        argument_behind(argv.skip(at), flag) == argument_behind(argv.skip(at + 2), flag),
{
    assert(argv.skip(at).skip(2) =~= argv.skip(at + 2));
}

proof fn lemma_bare_flag(argv: Seq<Seq<char>>, at: int, flag: Seq<char>)
    requires
        0 <= at,
        at + 2 <= argv.len(),
        argv[at] != flag,
        argv[at] == "--no-display-prompt"@ || argv[at] == "-no-cnv"@ || argv[at]
            == "--simple-io"@,
    ensures
        argument_behind(argv.skip(at), flag) == argument_behind(argv.skip(at + 1), flag),
{
    assert(argv.skip(at).skip(1) =~= argv.skip(at + 1));
}

proof fn lemma_flags_differ()
    ensures
        "-m"@.len() == 2 && "-p"@.len() == 2 && "-n"@.len() == 2 && "-c"@.len() == 2,
        "-m"@[1] == 'm' && "-p"@[1] == 'p' && "-n"@[1] == 'n' && "-c"@[1] == 'c',
        "--temp"@.len() == 6 && "--seed"@.len() == 6 && "--top-k"@.len() == 7,
        "--temp"@[2] == 't' && "--seed"@[2] == 's',
        "-ngl"@.len() == 4,
        "--no-display-prompt"@.len() == 19 && "-no-cnv"@.len() == 7 && "--simple-io"@.len() == 11,
        "-no-cnv"@[1] == 'n' && "--top-k"@[1] == '-',
{
    reveal_strlit("-m");
    reveal_strlit("-p");
    reveal_strlit("-n");
    reveal_strlit("-c");
    reveal_strlit("--temp");
    reveal_strlit("--seed");
    reveal_strlit("--top-k");
    reveal_strlit("-ngl");
    reveal_strlit("--no-display-prompt");
    reveal_strlit("-no-cnv");
    reveal_strlit("--simple-io");
}

/// The other engine is told by its flags to complete the same prompt with the
/// same model, in as many tokens, without chance.
#[verifier::rlimit(50)]
pub proof fn completions_are_told_their_settings(options: CompletionOptions, prompt: Seq<char>)
    ensures
        ({
            let argv = completion_argv(options, prompt);
            let behind = |flag: Seq<char>| argument_behind(argv, flag);
            &&& behind("-m"@) == Some(options.gguf@)
            &&& behind("-p"@) == Some(prompt)
            &&& behind("-n"@) == Some(decimal(options.max_tokens as nat))
            &&& behind("--temp"@) == Some("0"@)
            &&& behind("--top-k"@) == Some("1"@)
            &&& behind("--seed"@) == Some(decimal(options.seed as nat))
            &&& behind("-ngl"@) == Some(signed_decimal(options.gpu_layers as int))
            &&& behind("-c"@) == Some(decimal(options.ctx_size as nat))
            &&& argv.len() == if options.llama_warmup {
                19
            } else {
                20int
            }
            &&& !options.llama_warmup ==> argv.last() == "--no-warmup"@
        }),
{
    let argv = completion_argv(options, prompt);
    lemma_flags_differ();
    assert(argv.skip(0) =~= argv);
    lemma_completion_flag(options, prompt, "-m"@, 0);
    lemma_completion_flag(options, prompt, "-p"@, 2);
    lemma_completion_flag(options, prompt, "-n"@, 4);
    lemma_completion_flag(options, prompt, "--temp"@, 6);
    lemma_completion_flag(options, prompt, "--top-k"@, 8);
    lemma_completion_flag(options, prompt, "--seed"@, 10);
    lemma_completion_flag(options, prompt, "-ngl"@, 15);
    lemma_completion_flag(options, prompt, "-c"@, 17);
}

#[verifier::rlimit(50)]
proof fn lemma_completion_flag(
    options: CompletionOptions,
    prompt: Seq<char>,
    flag: Seq<char>,
    at: int,
)
    requires
        at == 0 || at == 2 || at == 4 || at == 6 || at == 8 || at == 10 || at == 15 || at == 17,
        completion_argv(options, prompt)[at] == flag,
        forall|i: int|
            0 <= i < at && (i <= 10 && i % 2 == 0 || 12 <= i <= 15) ==> (
            #[trigger] completion_argv(options, prompt)[i]) != flag,
    ensures
        argument_behind(completion_argv(options, prompt), flag) == Some(
            completion_argv(options, prompt)[at + 1],
        ),
{
    let argv = completion_argv(options, prompt);
    lemma_flags_differ();
    assert(argv.skip(0) =~= argv);
    if at > 0 {
        lemma_next_flag(argv, 0, flag);
    }
    if at > 2 {
        lemma_next_flag(argv, 2, flag);
    }
    if at > 4 {
        lemma_next_flag(argv, 4, flag);
    }
    if at > 6 {
        lemma_next_flag(argv, 6, flag);
    }
    if at > 8 {
        lemma_next_flag(argv, 8, flag);
    }
    if at > 10 {
        lemma_next_flag(argv, 10, flag);
        lemma_bare_flag(argv, 12, flag);
        lemma_bare_flag(argv, 13, flag);
        lemma_bare_flag(argv, 14, flag);
    }
    if at > 15 {
        lemma_next_flag(argv, 15, flag);
    }
}

} // verus!
