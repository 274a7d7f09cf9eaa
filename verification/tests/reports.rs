use tinyagent::compare::{
    build_apple_to_apple_comparison, build_apple_to_apple_summary, check_compare,
    completion_failure, CompareSource, CompletionOptions, LookedUp, MeasuredRun, RunFacts,
    RunMatch,
};
use tinyagent::hf_config::SafetensorsIndexSummary;
use tinyagent::paths::join as join_path;
use tinyagent::phase::{
    artifacts, check_phase_bench, checked_first_decode_ops, checked_prefill_ops,
    decode_baseline_name, decode_projection_name, model_id, parse_prefill_tokens,
    prefill_projection_name, qwen_decode_first_token_ops, qwen_prefill_ops,
};
use tinyagent::scan::{
    join, lines, parse_u64, parse_usize, split_behind, split_on, trim, ReadFault,
};
use tinyagent::stats::{median, sort_doubles, Middle};
use tinyagent::text::{decimal_i32, decimal_u64, split_whitespace};
use tinyagent::timings::{
    clean_generated_text, float_text, parse_llama_completion_timings, parse_perf_ms,
    parse_perf_ms_count, perf_metric, stderr_tail, version_text,
};
use tinyagent::tma::{
    inspect_package, metadata_path, ModelArchitecture, PackageStatus, QwenConfig, SourceFormat,
    TensorDType, TensorDescriptor, TmaPackageMetadata,
};

fn report() -> String {
    [
        "llama_context: n_ctx = 512",
        "common_perf_print:        load time =     123.45 ms",
        "common_perf_print: prompt eval time =      56,78 ms /    21 tokens (    2.70 ms per token)",
        "common_perf_print:        eval time =      34.50 ms /     3 runs   (   11.50 ms per token)",
        "common_perf_print:       total time =     100.00 ms /    24 tokens",
    ]
    .join("\n")
}

#[test]
fn timings_of_a_run_are_read() {
    let timings = parse_llama_completion_timings(&report()).unwrap();
    assert_eq!(timings.load_ms, "123.45");
    assert_eq!(timings.prompt_eval_ms, "56.78");
    assert_eq!(timings.prompt_eval_tokens, 21);
    assert_eq!(timings.eval_ms, "34.50");
    assert_eq!(timings.eval_runs, 3);
    assert_eq!(timings.total_ms, "100.00");
    assert_eq!(timings.total_tokens, 24);
    assert_eq!(timings.prompt_eval_ms.parse::<f64>().unwrap(), 56.78);
}

#[test]
fn missing_timings_are_named() {
    assert_eq!(
        parse_llama_completion_timings("").unwrap_err().message(),
        "missing llama.cpp timing line `load time`"
    );
    assert_eq!(
        parse_perf_ms_count("load time = 1 ms", "eval time").unwrap_err().message(),
        "missing llama.cpp timing line `eval time`"
    );
}

#[test]
fn broken_timing_lines_are_quoted() {
    assert_eq!(
        parse_perf_ms("load time 12 ms", "load time").unwrap_err().message(),
        "missing `=` in llama.cpp timing line: load time 12 ms"
    );
    assert_eq!(
        parse_perf_ms("load time =  ", "load time").unwrap_err().message(),
        "missing ms value in llama.cpp timing line: load time =  "
    );
    assert_eq!(
        parse_perf_ms("load time = x ms", "load time").unwrap_err().message(),
        "invalid ms value `x` in llama.cpp timing line"
    );
    assert_eq!(
        parse_perf_ms_count("eval time = 1.5 ms", "eval time").unwrap_err().message(),
        "missing `/` count in llama.cpp timing line: eval time = 1.5 ms"
    );
    assert_eq!(
        parse_perf_ms_count("eval time = 1.5 ms / ", "eval time").unwrap_err().message(),
        "missing count in llama.cpp timing line: eval time = 1.5 ms / "
    );
    assert_eq!(
        parse_perf_ms_count("eval time = 1.5 ms / 1.5", "eval time").unwrap_err().message(),
        "invalid count `1.5` in llama.cpp timing line"
    );
    assert!(matches!(
        parse_perf_ms("load time = 1,x ms", "load time"),
        Err(ReadFault::NoFloat { raw, .. }) if raw == "1.x"
    ));
    assert!(matches!(
        parse_perf_ms_count("eval time = 1.5 ms / 1.5", "eval time"),
        Err(ReadFault::NoCount { raw, .. }) if raw == "1.5"
    ));
    assert!(matches!(
        parse_perf_ms("load time 12 ms", "load time"),
        Err(ReadFault::Said { .. })
    ));
}

#[test]
fn the_first_line_of_a_label_counts() {
    assert_eq!(
        parse_perf_ms("  eval time = 1 ms\neval time = 2 ms", "eval time").unwrap(),
        "1"
    );
    assert_eq!(
        parse_perf_ms_count("x\neval time = 1e3 ms / +4 runs\r\n", "eval time").unwrap(),
        ("1e3".to_string(), 4)
    );
}

#[test]
fn metric_stands_behind_the_mark() {
    assert_eq!(perf_metric("0.1 common_perf_print: a = 1"), " a = 1");
    assert_eq!(perf_metric("a = 1"), "a = 1");
}

#[test]
fn float_texts_are_those_that_parse() {
    for text in [
        "0", "1.5", ".5", "5.", "+1", "-1.25", "1e5", "1E-5", "1.e+10", "inf", "-Inf", "NaN",
        "infinity", "+INFINITY", "", ".", "e5", "1e", "1e+", "--1", "1.2.3", "1 ", "0x1", "1_0",
        "infin", "nan0", "+", "-", "1e5.0", "٣", "1,5",
    ] {
        assert_eq!(float_text(text), text.parse::<f64>().is_ok(), "{text}");
    }
}

#[test]
fn generated_text_loses_control_characters() {
    assert_eq!(
        clean_generated_text(" \u{1b}[0ma\tb\nc\u{7f}\u{85}\r\n"),
        "[0ma\tb\nc"
    );
    let cleaned = clean_generated_text("\u{0} x\u{9f} \u{2003}");
    assert_eq!(cleaned, "x");
    assert_eq!(clean_generated_text(&cleaned), cleaned);
    assert_eq!(clean_generated_text(""), "");
}

#[test]
fn tail_keeps_the_last_lines() {
    assert_eq!(stderr_tail("a\nb\r\nc\n", 2), "b\nc");
    assert_eq!(stderr_tail("a\nb", 5), "a\nb");
    assert_eq!(stderr_tail("a\nb", 0), "");
}

#[test]
fn version_is_put_on_one_line() {
    assert_eq!(
        version_text("version: 9219\n\n", "  built with clang \n"),
        "version: 9219 | built with clang"
    );
    assert_eq!(version_text("", ""), "");
}

#[test]
fn lines_end_as_they_do_in_text_files() {
    for text in ["", "\n", "a", "a\n", "a\r\n", "a\r", "\r\n\n", "a\n\nb\r\r\nc"] {
        let expected: Vec<String> = text.lines().map(|line| line.to_string()).collect();
        assert_eq!(lines(text), expected, "{text:?}");
    }
}

#[test]
fn splitting_and_joining_are_inverse() {
    for text in ["", ",", "a,b,,c", "no comma", ",x,"] {
        let parts = split_on(text, ',');
        let expected: Vec<String> = text.split(',').map(|part| part.to_string()).collect();
        assert_eq!(parts, expected);
        assert_eq!(join(&parts, ","), text);
    }
}

#[test]
fn numbers_are_written_and_read_back() {
    for value in [0, 7, 10, 4096, u64::MAX] {
        assert_eq!(decimal_u64(value), value.to_string());
        assert_eq!(parse_u64(&decimal_u64(value)), Some(value));
    }
    for value in [i32::MIN, -1, 0, 42, i32::MAX] {
        assert_eq!(decimal_i32(value), value.to_string());
    }
    for text in ["", "+", "+5", "-5", "18446744073709551616", "007", "1 ", "x"] {
        assert_eq!(parse_u64(text), text.parse::<u64>().ok(), "{text}");
        assert_eq!(parse_usize(text), text.parse::<usize>().ok(), "{text}");
    }
}

#[test]
fn trimming_and_splitting_know_white_space() {
    for text in ["", "  ", "\u{a0}a \u{2009}b\u{3000}", "a", "\u{85}x\u{200b}"] {
        assert_eq!(trim(text), text.trim(), "{text:?}");
        assert_eq!(trim(&trim(text)), trim(text));
        let expected: Vec<String> = text.split_whitespace().map(|word| word.to_string()).collect();
        assert_eq!(split_whitespace(text), expected, "{text:?}");
    }
    assert_eq!(split_behind("aXbXc", "X"), Some("bXc".to_string()));
    assert_eq!(split_behind("abc", "X"), None);
}

#[test]
fn paths_join_as_files_do() {
    for (base, part) in [("/a", "b"), ("/a/", "b"), ("a", "/b"), ("", "b"), ("a", "")] {
        let expected = std::path::Path::new(base).join(part);
        assert_eq!(join_path(base, part), expected.display().to_string());
    }
}

#[test]
fn prefill_tokens_are_listed() {
    assert_eq!(
        parse_prefill_tokens("1,32,128,512").unwrap(),
        vec![1, 32, 128, 512]
    );
    assert_eq!(parse_prefill_tokens(" 4 ,, 5,").unwrap(), vec![4, 5]);
    assert_eq!(
        parse_prefill_tokens("1, x ,0").unwrap_err().message(),
        "invalid prefill token count `x`"
    );
    assert!(matches!(
        parse_prefill_tokens("1, x ,0"),
        Err(ReadFault::NoCount { raw, .. }) if raw == "x"
    ));
    assert_eq!(
        parse_prefill_tokens("1,0,x").unwrap_err().message(),
        "prefill token counts must be greater than zero"
    );
    assert_eq!(
        parse_prefill_tokens(" , ").unwrap_err().message(),
        "provide at least one prefill token count"
    );
}

#[test]
fn phase_bench_needs_iterations_first() {
    assert_eq!(
        check_phase_bench(0, "x").unwrap_err().message(),
        "phase benchmark iterations must be greater than zero"
    );
    assert_eq!(check_phase_bench(1, "7").unwrap(), vec![7]);
}

fn small_config() -> QwenConfig {
    QwenConfig {
        hidden_size: 8,
        intermediate_size: 16,
        num_hidden_layers: 2,
        num_attention_heads: 4,
        num_key_value_heads: 2,
        head_dim: 2,
        vocab_size: 100,
        max_position_embeddings: 64,
        rope_theta: 10000,
    }
}

#[test]
fn operations_are_counted() {
    let config = small_config();
    // Weights of a layer: 2*8*8 + 2*8*4 + 3*8*16 = 576.
    assert_eq!(qwen_prefill_ops(3, &config), 2 * (2 * 3 * 576 + 4 * 4 * 9 * 2));
    assert_eq!(
        qwen_decode_first_token_ops(3, &config),
        2 * (2 * 576 + 4 * 4 * 3 * 2) + 2 * 8 * 100
    );
    assert_eq!(checked_prefill_ops(3, &config), Some(7488));
}

#[test]
fn one_token_is_prefilled_as_it_is_decoded() {
    let config = small_config();
    assert_eq!(
        qwen_decode_first_token_ops(1, &config),
        qwen_prefill_ops(1, &config) + 2 * 8 * 100
    );
    assert!(qwen_prefill_ops(5, &config) <= qwen_prefill_ops(6, &config));
}

#[test]
fn operations_that_cannot_be_counted_are_not() {
    let mut config = small_config();
    config.hidden_size = u64::MAX / 2;
    assert_eq!(checked_prefill_ops(1, &config), None);
    assert_eq!(checked_first_decode_ops(1, &config), None);
    assert_eq!(checked_prefill_ops(u64::MAX / 2, &small_config()), None);
}

#[test]
fn benchmarks_have_their_names() {
    assert_eq!(
        decode_baseline_name(1536),
        "decode_projection_matmul_f16_1x1536x1536_baseline_hot"
    );
    assert_eq!(
        decode_projection_name(1536),
        "decode_projection_matvec_f16_1536x1536_hot"
    );
    assert_eq!(
        prefill_projection_name(32, 1536),
        "prefill_projection_f16_32x1536x1536_hot"
    );
    assert_eq!(model_id(None), "qwen-local");
    assert_eq!(model_id(Some("q".to_string())), "q");
}

#[test]
fn artifacts_prefer_the_index() {
    let index = SafetensorsIndexSummary {
        index_bytes: 10,
        total_size_bytes: Some(20),
        total_parameters: None,
    };
    let found = artifacts(Some(1), Some(index), Some(30));
    assert_eq!(found.tokenizer_json_bytes, Some(1));
    assert_eq!(found.safetensors_index_bytes, Some(10));
    assert_eq!(found.safetensors_total_size_bytes, Some(20));
    assert_eq!(found.safetensors_total_parameters, None);

    let index = SafetensorsIndexSummary {
        index_bytes: 10,
        total_size_bytes: None,
        total_parameters: Some(5),
    };
    let found = artifacts(None, Some(index), Some(30));
    assert_eq!(found.safetensors_total_size_bytes, Some(30));
    assert_eq!(found.safetensors_total_parameters, Some(5));
    let found = artifacts(None, None, Some(30));
    assert_eq!(found.safetensors_index_bytes, None);
    assert_eq!(found.safetensors_total_size_bytes, Some(30));
}

fn looked_up(shown: &str, found: bool) -> LookedUp {
    LookedUp {
        shown: shown.to_string(),
        found,
    }
}

#[test]
fn comparison_checks_in_order() {
    let dir = looked_up("\"d\"", true);
    let no_dir = looked_up("\"d\"", false);
    let file = looked_up("\"f\"", true);
    let no_file = looked_up("\"f\"", false);
    assert!(check_compare(1, 1, 1, &dir, &file, &file).is_ok());
    assert_eq!(
        check_compare(0, 0, 0, &no_dir, &no_file, &no_file).unwrap_err(),
        "compare runs must be greater than zero"
    );
    assert_eq!(
        check_compare(1, 0, 0, &no_dir, &no_file, &no_file).unwrap_err(),
        "max_tokens must be greater than zero"
    );
    assert_eq!(
        check_compare(1, 1, 0, &no_dir, &no_file, &no_file).unwrap_err(),
        "max_prompt_tokens must be greater than zero"
    );
    assert_eq!(
        check_compare(1, 1, 1, &no_dir, &no_file, &no_file).unwrap_err(),
        "TinyEngine HF/MLX model or tokenizer directory does not exist: \"d\""
    );
    assert_eq!(
        check_compare(1, 1, 1, &dir, &no_file, &no_file).unwrap_err(),
        "llama.cpp GGUF model does not exist: \"f\""
    );
    assert_eq!(
        check_compare(1, 1, 1, &dir, &file, &no_file).unwrap_err(),
        "llama.cpp completion binary does not exist: \"f\""
    );
}

#[test]
fn completion_is_deterministic_by_its_arguments() {
    let mut options = CompletionOptions {
        gguf: "m.gguf".to_string(),
        max_tokens: 4,
        seed: 1,
        gpu_layers: -1,
        ctx_size: 512,
        llama_warmup: true,
    };
    let expected = vec![
        "-m", "m.gguf", "-p", "hi", "-n", "4", "--temp", "0", "--top-k", "1", "--seed", "1",
        "--no-display-prompt", "-no-cnv", "--simple-io", "-ngl", "-1", "-c", "512",
    ];
    assert_eq!(options.argv("hi"), expected);
    options.llama_warmup = false;
    let argv = options.argv("hi");
    assert_eq!(argv.len(), 20);
    assert_eq!(argv[19], "--no-warmup");
}

#[test]
fn failed_completion_shows_the_end_of_its_output() {
    let stderr: String = (0..45).map(|line| format!("line {line}\n")).collect();
    let text = completion_failure("exit status: 1", &stderr);
    assert!(text.starts_with("llama-completion failed with status exit status: 1:\nline 5\n"));
    assert!(text.ends_with("\nline 44"));
}

fn facts(text: &str, prompt_tokens: usize, decode_tokens: usize) -> RunFacts {
    RunFacts {
        generated_text: text.to_string(),
        prompt_tokens,
        decode_tokens,
    }
}

#[test]
fn runs_match_field_by_field() {
    let matched = build_apple_to_apple_comparison(&facts("a", 3, 2), &facts("a", 3, 2));
    assert!(matched.generated_text_match);
    assert!(matched.prompt_token_count_match);
    assert!(matched.decode_eval_count_match);
    let matched = build_apple_to_apple_comparison(&facts("a", 3, 2), &facts("b", 4, 2));
    assert!(!matched.generated_text_match);
    assert!(!matched.prompt_token_count_match);
    assert!(matched.decode_eval_count_match);
}

fn measured(text_matches: bool, ms: f64) -> MeasuredRun {
    MeasuredRun {
        matched: RunMatch {
            generated_text_match: text_matches,
            prompt_token_count_match: true,
            decode_eval_count_match: true,
        },
        tiny_prompt_eval_ms: ms.to_bits(),
        llama_prompt_eval_ms: (ms * 2.0).to_bits(),
        tiny_decode_tokens_per_second: (-ms).to_bits(),
        llama_decode_tokens_per_second: ms.to_bits(),
        tiny_prompt_speed_ratio_vs_llama: ms.to_bits(),
        tiny_decode_speed_ratio_vs_llama: ms.to_bits(),
        tiny_total_wall_speed_ratio_vs_llama: ms.to_bits(),
    }
}

#[test]
fn summary_matches_where_every_run_does() {
    let summary = build_apple_to_apple_summary(&vec![
        measured(true, 3.0),
        measured(false, 1.0),
        measured(true, 2.0),
    ]);
    assert_eq!(summary.measured_runs, 3);
    assert!(!summary.all_generated_text_match);
    assert!(summary.all_prompt_token_counts_match);
    assert!(summary.all_decode_eval_counts_match);
    assert_eq!(
        summary.tiny_prompt_eval_ms_median,
        Middle::One(2.0_f64.to_bits())
    );
    assert_eq!(
        summary.llama_prompt_eval_ms_median,
        Middle::One(4.0_f64.to_bits())
    );
    assert_eq!(
        summary.tiny_decode_tokens_per_second_median,
        Middle::One((-2.0_f64).to_bits())
    );
    let nothing = build_apple_to_apple_summary(&Vec::new());
    assert!(nothing.all_generated_text_match);
    assert_eq!(nothing.tiny_prompt_eval_ms_median, Middle::Nothing);
}

#[test]
fn median_is_the_middle_of_the_total_order() {
    let bits = |values: &[f64]| -> Vec<u64> { values.iter().map(|value| value.to_bits()).collect() };
    assert_eq!(
        median(&bits(&[4.0, 1.0, 3.0, 2.0])),
        Middle::Two(2.0_f64.to_bits(), 3.0_f64.to_bits())
    );
    assert_eq!(
        median(&bits(&[2.0, 3.0, 1.0, 4.0])),
        median(&bits(&[4.0, 1.0, 3.0, 2.0]))
    );
    let values = [0.0, -0.0, f64::NEG_INFINITY, f64::NAN, -1.5, 1e300];
    let mut expected = values.to_vec();
    expected.sort_by(|left, right| left.total_cmp(right));
    assert_eq!(sort_doubles(&bits(&values)), bits(&expected));
}

#[test]
fn sources_have_their_notes() {
    assert!(CompareSource::Mlx.measures_safetensors());
    assert!(!CompareSource::Gguf.measures_safetensors());
    assert!(CompareSource::Mlx.note().starts_with("Same base Qwen2.5 0.5B instruct prompt"));
    assert!(CompareSource::Gguf.note().starts_with("Same Qwen2.5 0.5B GGUF file"));
}

fn tensor(file: &str) -> TensorDescriptor {
    TensorDescriptor {
        name: file.to_string(),
        dtype: TensorDType::F16,
        shape: vec![1],
        file: file.to_string(),
        byte_offset: 0,
        byte_len: 2,
    }
}

#[test]
fn metadata_roundtrip() {
    let metadata = TmaPackageMetadata::scaffold(
        "qwen2.5-coder-1.5b".to_string(),
        ModelArchitecture::Qwen25,
        SourceFormat::HuggingFace,
        "/models/qwen".to_string(),
    );
    assert_eq!(metadata.format_version, 1);
    assert_eq!(metadata.status, PackageStatus::MetadataOnly);
    let inspection = inspect_package("/p", metadata.clone(), false, &Vec::new());
    assert_eq!(inspection.metadata, metadata);
    assert_eq!(inspection.tensor_count, 0);
    assert!(!inspection.tokenizer_exists);
    assert_eq!(inspection.total_tensor_bytes, 0);
    assert_eq!(metadata_path("/p"), "/p/metadata.json");
}

#[test]
fn inspection_finds_what_is_missing() {
    let mut metadata = TmaPackageMetadata::scaffold(
        "m".to_string(),
        ModelArchitecture::Qwen25,
        SourceFormat::Gguf,
        "/m".to_string(),
    );
    metadata.tokenizer_path = Some("tokenizer.json".to_string());
    metadata.tensors = vec![tensor("a"), tensor("b"), tensor("c")];
    assert_eq!(
        metadata.tokenizer_file("/p").as_deref(),
        Some("/p/tokenizer.json")
    );
    assert_eq!(metadata.tensor_files("/p"), vec!["/p/a", "/p/b", "/p/c"]);
    let inspection = inspect_package(
        "/p",
        metadata.clone(),
        true,
        &vec![Some(5), None, Some(6)],
    );
    assert!(inspection.tokenizer_exists);
    assert_eq!(inspection.tensor_count, 3);
    assert_eq!(inspection.missing_tensors, vec!["b"]);
    assert_eq!(inspection.total_tensor_bytes, 11);
    let inspection = inspect_package("/p", metadata, false, &vec![Some(1), Some(2), Some(3)]);
    assert!(!inspection.tokenizer_exists);
    assert!(inspection.missing_tensors.is_empty());
}
