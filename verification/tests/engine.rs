use tinyagent::error::TinyAgentError;
use tinyagent::generation::{
    cache_positions, run_counts, run_note, Generation, GenerationStep, QwenGgufRunConfig,
    QwenMlxRunConfig,
};
use tinyagent::hf_config::{FloatBits, QwenRuntimeConfig};
use tinyagent::kernels::{
    check_hot_output, is_finite, missing_device, rope_pair, run_attention_decode_f16_to_f32,
    run_add_kernel_probe, run_f16_matmul, run_f16_matvec, run_greedy_argmax_f32,
    run_hot_f16_matmul_bench, run_hot_f16_matvec_bench, run_kv_cache_append_f16, run_qwen_15b_hot_bench,
    run_qwen_15b_smoke_bench, run_rmsnorm_f16_to_f32, run_rope_f16_to_f32, run_softmax_f32,
    run_swiglu_f32, BenchInput, Grid, InputKind, Operand, ProbeKernel,
};
use tinyagent::kv_cache::{cpu_kv_cache_append_f16, row_span, KvCache, RowSpan};
use tinyagent::model::{
    ensure_len, ensure_quant_shape, QwenLayer, QwenProjectionBackend, QwenRuntimeModel,
};
use tinyagent::plan::{
    div_ceil, runtime_kernels, Argument, BufferName, FloatName, Kernel, KernelCall, LayerBuffer,
    LayerUploads, Projection, Size, TensorBuffer, Upload,
};
use tinyagent::projection::{
    decode_bytes, kv_head, matmul_many_batched, matvec_many, matvec_q8, project_quant,
    project_quant_batched, ProjectionArgument, ProjectionRequest, ProjectionRoute, RowStep,
};
use tinyagent::quant::{pack_q4, word_nibble, QuantEncoding, QuantTensor, ScaleFormat};
use tinyagent::sampling::{argmax, cpu_greedy_argmax_f32, deterministic_units};

fn bits(values: &[f32]) -> Vec<u32> {
    values.iter().map(|value| value.to_bits()).collect()
}

fn matrix(name: &str, out_dim: usize, in_dim: usize) -> QuantTensor {
    let words = in_dim.div_ceil(8);
    let groups = in_dim.div_ceil(64);
    QuantTensor {
        name: name.to_string(),
        encoding: QuantEncoding::AffineQ4,
        out_dim,
        in_dim,
        packed_per_row: words,
        groups_per_row: groups,
        group_size: 64,
        weight: vec![0x7654_3210; out_dim * words],
        q8_values: Vec::new(),
        scale_format: ScaleFormat::Brain,
        scales: vec![0x3F80; out_dim * groups],
        biases: vec![0; out_dim * groups],
    }
}

fn byte_matrix(name: &str, out_dim: usize, in_dim: usize) -> QuantTensor {
    QuantTensor {
        name: name.to_string(),
        encoding: QuantEncoding::GgufQ8_0,
        out_dim,
        in_dim,
        packed_per_row: 0,
        groups_per_row: in_dim.div_ceil(32),
        group_size: 32,
        weight: Vec::new(),
        q8_values: vec![1; out_dim * in_dim],
        scale_format: ScaleFormat::Half,
        scales: vec![0x3C00; out_dim * in_dim.div_ceil(32)],
        biases: Vec::new(),
    }
}

fn config() -> QwenRuntimeConfig {
    QwenRuntimeConfig {
        hidden_size: 8,
        intermediate_size: 24,
        num_hidden_layers: 2,
        num_attention_heads: 4,
        num_key_value_heads: 2,
        head_dim: 2,
        vocab_size: 3,
        rope_theta: FloatBits::Single(10000.0_f32.to_bits()),
        rms_norm_eps: FloatBits::Single(1e-6_f32.to_bits()),
        tie_word_embeddings: true,
    }
}

fn layer() -> QwenLayer {
    QwenLayer {
        input_layernorm_weight: vec![0; 8],
        post_attention_layernorm_weight: vec![0; 8],
        q_proj: matrix("q", 8, 8),
        k_proj: matrix("k", 4, 8),
        v_proj: matrix("v", 4, 8),
        o_proj: matrix("o", 8, 8),
        q_bias: vec![0; 8],
        k_bias: vec![0; 4],
        v_bias: vec![0; 4],
        gate_proj: matrix("gate", 24, 8),
        up_proj: matrix("up", 24, 8),
        down_proj: matrix("down", 8, 24),
    }
}

fn model(backend: QwenProjectionBackend) -> QwenRuntimeModel {
    QwenRuntimeModel {
        config: config(),
        projection_backend: backend,
        embed_tokens: matrix("embed", 3, 8),
        lm_head: Some(byte_matrix("output.weight", 3, 8)),
        layers: vec![layer(), layer()],
        norm_weight: vec![0; 8],
    }
}

const Q4_UPLOAD: Upload = Upload {
    q4_weight: true,
    q8_values: false,
    biases: true,
};

const Q8_UPLOAD: Upload = Upload {
    q4_weight: false,
    q8_values: true,
    biases: false,
};

fn uploads() -> LayerUploads {
    LayerUploads {
        q: Some(Q4_UPLOAD),
        k: Some(Q4_UPLOAD),
        v: Some(Q4_UPLOAD),
        o: Some(Q4_UPLOAD),
        gate: Some(Q4_UPLOAD),
        up: Some(Q4_UPLOAD),
        down: Some(Q4_UPLOAD),
    }
}

fn line(width: u64) -> Size {
    Size {
        width,
        height: 1,
        depth: 1,
    }
}

fn said(error: TinyAgentError) -> String {
    error.message()
}

#[test]
fn packed_nibbles_are_read_back() {
    let word = pack_q4(&[8, 7, 6, 5, 4, 3, 2, 1]);
    assert_eq!(word, 0x1234_5678);
    for (index, expected) in [8, 7, 6, 5, 4, 3, 2, 1].into_iter().enumerate() {
        assert_eq!(word_nibble(word, index), expected);
    }
    assert_eq!(pack_q4(&[0x1F, 0x20, 0, 0, 0, 0, 0, 0xFFFF_FFFF]), 0xF000_000F);
}

#[test]
fn matrices_know_what_they_hold() {
    let tensor = matrix("m", 2, 72);
    assert!(tensor.is_backed());
    assert_eq!(tensor.code(1, 3), 3);
    assert_eq!(tensor.group(1, 63), 2);
    assert_eq!(tensor.group(1, 64), 3);
    assert!(tensor.check_row(1).is_ok());
    assert_eq!(
        said(tensor.check_row(2).unwrap_err()),
        "configuration error: m row 2 out of range 2"
    );
    let mut short = matrix("m", 2, 72);
    short.weight.pop();
    assert!(!short.is_backed());
    let bytes = byte_matrix("b", 2, 40);
    assert!(bytes.is_backed());
    assert_eq!(bytes.byte(1, 39), 1);
    assert_eq!(bytes.group(1, 39), 3);
}

#[test]
fn inputs_of_a_projection_are_checked() {
    let tensor = matrix("m", 2, 8);
    assert!(tensor.validate_matvec_input(8, Some(2)).is_ok());
    assert_eq!(
        said(tensor.validate_matvec_input(7, Some(3)).unwrap_err()),
        "configuration error: m input length 7 does not match 8"
    );
    assert_eq!(
        said(tensor.validate_matvec_input(8, Some(3)).unwrap_err()),
        "configuration error: m linear bias length 3 does not match 2"
    );
}

#[test]
fn shapes_are_checked_by_name() {
    assert!(ensure_len("n", 3, 3).is_ok());
    assert_eq!(
        said(ensure_len("n", 3, 4).unwrap_err()),
        "configuration error: n length 3 does not match expected 4"
    );
    assert!(ensure_quant_shape("t", &matrix("m", 2, 8), 2, 8).is_ok());
    assert_eq!(
        said(ensure_quant_shape("t", &matrix("m", 2, 8), 3, 8).unwrap_err()),
        "configuration error: t shape [out=2, in=8] does not match expected [3, 8]"
    );
    assert!(layer().validate_shapes(&config(), 0).is_ok());
    let mut wrong = layer();
    wrong.v_bias.push(0);
    wrong.down_proj = matrix("down", 8, 8);
    assert_eq!(
        said(wrong.validate_shapes(&config(), 7).unwrap_err()),
        "configuration error: model.layers.7.self_attn.v_proj.bias length 5 does not match expected 4"
    );
}

#[test]
fn cache_reads_back_what_was_written() {
    let mut cache = KvCache::new(3, 2, 2);
    cache.write(1, &[1, 2, 3, 4], &[5, 6, 7, 8]);
    assert_eq!(cache.key(1, 0, 0), 1);
    assert_eq!(cache.key(1, 1, 1), 4);
    assert_eq!(cache.value(1, 1, 0), 7);
    assert_eq!(cache.key(0, 1, 1), 0);
    assert_eq!(cache.value(2, 0, 0), 0);
    cache.write(2, &[9, 9, 9, 9], &[9, 9, 9, 9]);
    assert_eq!(cache.key(1, 0, 1), 2);
}

#[test]
fn cache_reads_back_rows() {
    let mut cache = KvCache::new(4, 1, 2);
    cache.write(0, &[70, 71], &[72, 73]);
    cache.write_rows(1, &[1, 2, 3, 4], &[5, 6, 7, 8], 2);
    assert_eq!(cache.key(1, 0, 1), 2);
    assert_eq!(cache.key(2, 0, 0), 3);
    assert_eq!(cache.value(2, 0, 1), 8);
    assert_eq!(cache.key(0, 0, 0), 70);
    assert_eq!(cache.value(3, 0, 0), 0);
}

#[test]
fn appended_halves_replace_a_row() {
    let (k, v) = cpu_kv_cache_append_f16(&[1, 2, 3, 4], &[5, 6, 7, 8], &[9, 9], &[10, 11], 1);
    assert_eq!(k, vec![1, 2, 9, 9]);
    assert_eq!(v, vec![5, 6, 10, 11]);
}

#[test]
fn argmax_takes_the_last_greatest() {
    assert_eq!(argmax(&bits(&[1.0, 3.0, -2.0, 3.0, 0.0])), 3);
    assert_eq!(argmax(&bits(&[-1.0, -0.0, 0.0])), 2);
    assert_eq!(argmax(&bits(&[f32::NAN, f32::INFINITY])), 0);
    assert_eq!(argmax(&Vec::new()), 0);
    let values = [0.5, -7.0, 1e30, f32::NEG_INFINITY, 1e30, -f32::NAN];
    let expected = values
        .iter()
        .enumerate()
        .max_by(|(_, left), (_, right)| left.total_cmp(right))
        .map(|(index, _)| index)
        .unwrap();
    assert_eq!(argmax(&bits(&values)), expected);
}

#[test]
fn greedy_choice_takes_the_first_greatest() {
    assert_eq!(
        cpu_greedy_argmax_f32(&bits(&[1.0, 3.0, -2.0, 3.0])),
        (1, 3.0_f32.to_bits())
    );
    assert_eq!(
        cpu_greedy_argmax_f32(&bits(&[-0.0, 0.0])),
        (0, (-0.0_f32).to_bits())
    );
    assert_eq!(
        cpu_greedy_argmax_f32(&bits(&[1.0, f32::NAN, 2.0])).0,
        2
    );
    assert_eq!(cpu_greedy_argmax_f32(&bits(&[f32::NAN, 5.0])).0, 0);
}

#[test]
fn generator_is_determined_by_its_seed() {
    let mut state = 0xA11CE_u32;
    let expected: Vec<u32> = (0..5)
        .map(|_| {
            state = state.wrapping_mul(1_664_525).wrapping_add(1_013_904_223);
            state >> 8
        })
        .collect();
    assert_eq!(deterministic_units(5, 0xA11CE), expected);
    assert!(deterministic_units(0, 1).is_empty());
}

#[test]
fn generation_stops_at_its_limit() {
    let mut generation = Generation::begin(5, 2);
    assert_eq!(
        generation.accept(10),
        GenerationStep::Decode {
            token_id: 10,
            position: 5
        }
    );
    assert_eq!(generation.accept(11), GenerationStep::Finished);
    assert_eq!(generation.generated(), &vec![10, 11]);
}

#[test]
fn generation_stops_at_an_end_of_turn() {
    for stop in [151_645, 151_643] {
        let mut generation = Generation::begin(1, 4);
        assert_eq!(
            generation.accept(3),
            GenerationStep::Decode {
                token_id: 3,
                position: 1
            }
        );
        assert_eq!(
            generation.accept(4),
            GenerationStep::Decode {
                token_id: 4,
                position: 2
            }
        );
        assert_eq!(generation.accept(stop), GenerationStep::Finished);
        assert_eq!(generation.generated(), &vec![3, 4]);
    }
}

#[test]
fn runs_are_counted_and_described() {
    assert_eq!(cache_positions(5, 3), 9);
    let counts = run_counts(QwenProjectionBackend::Cpu, 2, 3, 4);
    assert_eq!(counts.eval_tokens, 7);
    assert_eq!(counts.decode_eval_tokens, 4);
    assert_eq!(counts.q4_projection_groups_per_eval_token, 15);
    assert_eq!(counts.q4_projection_groups_total, 14 * 7 + 5);
    let counts = run_counts(QwenProjectionBackend::Metal, 2, 3, 0);
    assert_eq!(counts.q4_projection_groups_per_eval_token, 9);
    assert_eq!(counts.q4_projection_groups_total, 8 * 3 + 1);
    assert_eq!(
        run_note("gguf-q4_0", QwenProjectionBackend::Cpu),
        "CPU reference end-to-end over GGUF Q4_0 Qwen weights."
    );
    assert!(run_note("mlx-affine-q4", QwenProjectionBackend::Cpu)
        .starts_with("CPU reference end-to-end over real MLX 4-bit Qwen weights;"));
    assert!(run_note("mlx-affine-q4", QwenProjectionBackend::Metal)
        .starts_with("Hybrid TinyEngine end-to-end over real MLX"));
    assert!(run_note("gguf-q4_0", QwenProjectionBackend::Metal)
        .starts_with("Hybrid TinyEngine end-to-end over the same GGUF"));
    assert_eq!(
        run_note("other", QwenProjectionBackend::Cpu),
        "TinyEngine Qwen end-to-end run."
    );
}

#[test]
fn runs_without_tokens_are_refused() {
    let mlx = |max_tokens: usize, max_prompt_tokens: usize| {
        QwenMlxRunConfig {
            hf_dir: "d".to_string(),
            prompt: "p".to_string(),
            max_tokens,
            max_prompt_tokens,
            projection_backend: QwenProjectionBackend::Cpu,
        }
        .check()
    };
    assert!(mlx(1, 1).is_ok());
    assert_eq!(
        said(mlx(0, 0).unwrap_err()),
        "configuration error: max_tokens must be greater than zero"
    );
    assert_eq!(
        said(mlx(1, 0).unwrap_err()),
        "configuration error: max_prompt_tokens must be greater than zero"
    );
    let gguf = QwenGgufRunConfig {
        gguf_path: "g".to_string(),
        tokenizer_dir: "t".to_string(),
        prompt: "p".to_string(),
        max_tokens: 0,
        max_prompt_tokens: 1,
        projection_backend: QwenProjectionBackend::Metal,
    };
    assert!(gguf.check().is_err());
}

#[test]
fn kernels_are_made_ready_in_order() {
    let names: Vec<&str> = runtime_kernels()
        .into_iter()
        .map(|kernel| kernel.function_name())
        .collect();
    assert_eq!(
        names,
        vec![
            "q4_affine_matvec_f32",
            "q4_affine_matmat_f32",
            "q8_0_matvec_f32",
            "rmsnorm_f32",
            "rope_inplace_f32",
            "write_kv_cache_f32",
            "attention_decode_f32",
            "add_f32",
            "swiglu_f32",
            "argmax_f32",
        ]
    );
    assert_eq!(
        said(Kernel::Q4Matvec.load_failure("r")),
        "backend error: failed to load q4 matvec kernel: r"
    );
    assert_eq!(
        said(Kernel::Q4Matmul.pipeline_failure("r")),
        "backend error: failed to create q4 batched matmul pipeline: r"
    );
    assert_eq!(
        said(Kernel::Rope.load_failure("r")),
        "backend error: failed to load Metal kernel rope_inplace_f32: r"
    );
    assert_eq!(
        said(Kernel::Argmax.pipeline_failure("r")),
        "backend error: failed to create Metal pipeline argmax_f32: r"
    );
}

#[test]
fn parts_cover_a_length() {
    assert_eq!(div_ceil(0, 8), 0);
    assert_eq!(div_ceil(1, 8), 1);
    assert_eq!(div_ceil(16, 8), 2);
    assert_eq!(div_ceil(17, 8), 3);
}

#[test]
fn uploads_follow_the_encoding() {
    let plan = matrix("m", 3, 72).upload_metal();
    assert_eq!(plan.upload, Q4_UPLOAD);
    assert_eq!(plan.dims, vec![3, 72, 9, 2, 64]);
    assert_eq!(plan.zero_bias_len, 3);
    assert_eq!(plan.output_bytes, 12);
    assert_eq!(byte_matrix("b", 3, 32).upload_metal().upload, Q8_UPLOAD);
}

#[test]
fn decoding_runs_every_layer() {
    let model = model(QwenProjectionBackend::Metal);
    let calls = model
        .forward_hidden_decode_metal(&vec![uploads(), uploads()], true, true, 2, 5)
        .unwrap();
    assert_eq!(calls.len(), 32);
    let kernels: Vec<Kernel> = calls[..16].iter().map(|call| call.kernel).collect();
    assert_eq!(
        kernels,
        vec![
            Kernel::Rmsnorm,
            Kernel::Q4Matvec,
            Kernel::Q4Matvec,
            Kernel::Q4Matvec,
            Kernel::Rope,
            Kernel::Rope,
            Kernel::KvWrite,
            Kernel::Attention,
            Kernel::Q4Matvec,
            Kernel::Add,
            Kernel::Rmsnorm,
            Kernel::Q4Matvec,
            Kernel::Q4Matvec,
            Kernel::Swiglu,
            Kernel::Q4Matvec,
            Kernel::Add,
        ]
    );
    assert_eq!(
        calls[0].arguments,
        vec![
            Argument::Buffer(BufferName::Hidden),
            Argument::Buffer(BufferName::Layer {
                layer: 0,
                own: LayerBuffer::InputNormWeight
            }),
            Argument::Buffer(BufferName::AttnInput),
            Argument::Word(8),
            Argument::Float(FloatName::RmsNormEps),
        ]
    );
    assert_eq!(
        calls[18].arguments[1],
        Argument::Buffer(BufferName::Tensor {
            layer: 1,
            projection: Projection::K,
            buffer: TensorBuffer::Q4Weight
        })
    );
    assert_eq!(calls[4].arguments[1], Argument::Words3(4, 2, 5));
    assert_eq!(calls[6].arguments[4], Argument::Words2(5, 4));
    assert_eq!(calls[7].arguments[4], Argument::Words4(5, 4, 2, 2));
    assert_eq!(calls[7].groups, line(4));
    assert_eq!(calls[11].groups, line(3));
    assert_eq!(calls[15].arguments[2], Argument::Buffer(BufferName::Hidden));
}

#[test]
fn decoding_needs_what_it_reads() {
    let model = model(QwenProjectionBackend::Metal);
    let both = vec![uploads(), uploads()];
    let refused = |uploads: &Vec<LayerUploads>, runtime: bool, buffers: bool, token: u32| {
        said(
            model
                .forward_hidden_decode_metal(uploads, runtime, buffers, token, 0)
                .unwrap_err(),
        )
    };
    assert_eq!(
        refused(&both, true, true, 3),
        "configuration error: embed row 3 out of range 3"
    );
    assert_eq!(
        refused(&both, false, false, 0),
        "configuration error: Metal decode path missing runtime"
    );
    assert_eq!(
        refused(&both, true, false, 0),
        "configuration error: Metal decode path missing buffers"
    );
    let mut some = uploads();
    some.gate = None;
    assert_eq!(
        refused(&vec![uploads(), some], true, true, 0),
        "configuration error: gate_proj missing Metal buffers"
    );
    let mut some = uploads();
    some.k = None;
    assert_eq!(
        refused(&vec![some, uploads()], true, true, 0),
        "configuration error: k has not been uploaded to Metal"
    );
    let mut some = uploads();
    some.down = Some(Q8_UPLOAD);
    assert_eq!(
        refused(&vec![some, uploads()], true, true, 0),
        "configuration error: down is missing q4 Metal weight buffer"
    );
}

/// The places at which a kernel writes.
fn written_places(kernel: Kernel) -> Vec<usize> {
    match kernel {
        Kernel::Q4Matvec | Kernel::Q4Matmul => vec![5],
        Kernel::Q8Matvec => vec![4],
        Kernel::Rmsnorm | Kernel::Add | Kernel::Swiglu => vec![2],
        Kernel::Rope => vec![0],
        Kernel::KvWrite => vec![2, 3],
        Kernel::Attention => vec![3],
        Kernel::Argmax => vec![1],
    }
}

/// The working buffers that calls read before a call has written them.
fn read_too_early(calls: &[KernelCall]) -> Vec<BufferName> {
    let mut filled: Vec<BufferName> = vec![BufferName::Hidden];
    let mut early = Vec::new();
    for call in calls {
        let places = written_places(call.kernel);
        for (place, argument) in call.arguments.iter().enumerate() {
            if let Argument::Buffer(name) = argument {
                let of_model = matches!(
                    name,
                    BufferName::Layer { .. }
                        | BufferName::Tensor { .. }
                        | BufferName::Head { .. }
                        | BufferName::OutputNormWeight
                );
                let read = call.kernel == Kernel::Rope || !places.contains(&place);
                if read && !of_model && !filled.contains(name) {
                    early.push(*name);
                }
            }
        }
        for place in places {
            if let Argument::Buffer(name) = call.arguments[place] {
                filled.push(name);
            }
        }
    }
    early
}

#[test]
fn planned_calls_read_what_was_written() {
    let model = model(QwenProjectionBackend::Metal);
    let mut calls = model
        .forward_hidden_decode_metal(&vec![uploads(), uploads()], true, true, 1, 3)
        .unwrap();
    assert_eq!(read_too_early(&calls), Vec::new());
    let choice = model
        .project_next_token_metal(8, true, true, &Some(Q8_UPLOAD))
        .unwrap();
    assert_eq!(read_too_early(&choice), Vec::new());
    calls.remove(1);
    assert_eq!(read_too_early(&calls), vec![BufferName::Q]);
}

#[test]
fn next_token_is_chosen_on_the_gpu() {
    let model = model(QwenProjectionBackend::Metal);
    let calls = model
        .project_next_token_metal(8, true, true, &Some(Q8_UPLOAD))
        .unwrap();
    let kernels: Vec<Kernel> = calls.iter().map(|call| call.kernel).collect();
    assert_eq!(
        kernels,
        vec![Kernel::Rmsnorm, Kernel::Q8Matvec, Kernel::Argmax]
    );
    assert_eq!(calls[1].groups, line(3));
    assert_eq!(calls[2].arguments[2], Argument::Word(3));
    let refused = |len: usize, runtime: bool, buffers: bool, upload: Option<Upload>| {
        said(
            model
                .project_next_token_metal(len, runtime, buffers, &upload)
                .unwrap_err(),
        )
    };
    assert_eq!(
        refused(7, true, true, Some(Q8_UPLOAD)),
        "configuration error: decode hidden length 7 does not match expected 8"
    );
    assert_eq!(
        refused(8, false, true, Some(Q8_UPLOAD)),
        "configuration error: Metal next-token path missing runtime"
    );
    assert_eq!(
        refused(8, true, false, Some(Q8_UPLOAD)),
        "configuration error: Metal next-token path missing buffers"
    );
    assert_eq!(
        refused(8, true, true, None),
        "configuration error: output.weight missing Metal buffers"
    );
    assert_eq!(
        refused(8, true, true, Some(Q4_UPLOAD)),
        "configuration error: output.weight missing q8 Metal values"
    );
}

#[test]
fn projections_are_routed() {
    let metal = QwenProjectionBackend::Metal;
    assert_eq!(
        project_quant(QwenProjectionBackend::Cpu, false, QuantEncoding::GgufQ8_0).unwrap(),
        ProjectionRoute::Cpu
    );
    assert_eq!(
        project_quant(metal, true, QuantEncoding::GgufQ8_0).unwrap(),
        ProjectionRoute::MetalQ8
    );
    assert_eq!(
        project_quant(metal, true, QuantEncoding::AffineQ4).unwrap(),
        ProjectionRoute::MetalQ4
    );
    assert_eq!(
        said(project_quant(metal, false, QuantEncoding::AffineQ4).unwrap_err()),
        "configuration error: Metal projection backend missing runtime"
    );
    let tensor = matrix("m", 2, 8);
    assert_eq!(
        project_quant_batched(metal, true, &tensor, 16, 2, Some(2)).unwrap(),
        ProjectionRoute::MetalQ4
    );
    assert_eq!(
        said(project_quant_batched(metal, true, &tensor, 0, 0, None).unwrap_err()),
        "configuration error: batched projection requires a non-empty batch"
    );
    assert_eq!(
        said(project_quant_batched(metal, true, &tensor, 15, 2, Some(9)).unwrap_err()),
        "configuration error: m batched input length 15 does not match batch 2 * 8"
    );
    assert_eq!(
        said(project_quant_batched(metal, true, &tensor, 16, 2, Some(9)).unwrap_err()),
        "configuration error: m linear bias length 9 does not match 2"
    );
}

#[test]
fn shared_projections_have_their_own_slots() {
    let layer = layer();
    let requests = layer.project_qkv(&uploads());
    let steps = matvec_many(&requests, 8).unwrap();
    let slots: Vec<Option<usize>> = steps.iter().map(|step| step.bias_slot).collect();
    assert_eq!(slots, vec![Some(0), Some(1), Some(2)]);
    assert_eq!(steps[1].output_len, 4);
    assert_eq!(steps[1].output_bytes, 16);
    let requests = layer.project_gate_up(&uploads());
    let steps = matmul_many_batched(&requests, 24, 3).unwrap();
    assert_eq!(steps[0].bias_slot, None);
    assert_eq!(
        steps[0].groups,
        Size {
            width: 24,
            height: 1,
            depth: 1
        }
    );
    assert_eq!(steps[1].output_len, 72);
    let mixed = vec![
        ProjectionRequest {
            tensor: &layer.q_proj,
            bias_len: None,
            upload: Some(Q4_UPLOAD),
        },
        ProjectionRequest {
            tensor: &layer.k_proj,
            bias_len: Some(4),
            upload: Some(Q4_UPLOAD),
        },
    ];
    let steps = matvec_many(&mixed, 8).unwrap();
    assert_eq!(steps[0].bias_slot, None);
    assert_eq!(steps[1].bias_slot, Some(0));
    assert!(matvec_many(&Vec::new(), 8).unwrap().is_empty());
}

#[test]
fn shared_projections_are_refused_in_order() {
    let bytes = byte_matrix("b", 2, 8);
    let tensor = matrix("m", 2, 8);
    let request = |tensor, upload| {
        vec![ProjectionRequest {
            tensor,
            bias_len: None,
            upload,
        }]
    };
    assert_eq!(
        said(matvec_many(&request(&bytes, None), 8).unwrap_err()),
        "configuration error: b cannot run on the q4 Metal kernel"
    );
    assert_eq!(
        said(matvec_many(&request(&tensor, None), 8).unwrap_err()),
        "configuration error: m has not been uploaded to Metal"
    );
    assert_eq!(
        said(matmul_many_batched(&request(&bytes, None), 8, 1).unwrap_err()),
        "configuration error: b cannot run on the batched q4 Metal kernel"
    );
    assert_eq!(
        said(matmul_many_batched(&request(&tensor, None), 8, 0).unwrap_err()),
        "configuration error: batched Metal projection requires a non-empty batch"
    );
    let upload = Some(Upload {
        q4_weight: true,
        q8_values: false,
        biases: false,
    });
    assert_eq!(
        said(matmul_many_batched(&request(&tensor, upload), 8, 1).unwrap_err()),
        "configuration error: m is missing q4 Metal bias buffer"
    );
}

#[test]
fn byte_projections_have_one_row_per_group() {
    let bytes = byte_matrix("b", 5, 8);
    let request = |upload| ProjectionRequest {
        tensor: &bytes,
        bias_len: Some(5),
        upload,
    };
    let step = matvec_q8(&request(Some(Q8_UPLOAD)), 8).unwrap();
    assert_eq!(step.groups, line(5));
    assert_eq!(step.bias_slot, Some(0));
    assert_eq!(
        said(matvec_q8(&request(None), 8).unwrap_err()),
        "configuration error: b has not been uploaded to Metal"
    );
    assert_eq!(
        said(matvec_q8(&request(Some(Q4_UPLOAD)), 8).unwrap_err()),
        "configuration error: b is missing q8 Metal value buffer"
    );
    let tensor = matrix("m", 2, 8);
    let wrong = ProjectionRequest {
        tensor: &tensor,
        bias_len: None,
        upload: None,
    };
    assert_eq!(
        said(matvec_q8(&wrong, 8).unwrap_err()),
        "configuration error: m cannot run on the q8_0 Metal kernel"
    );
}

#[test]
fn buffers_are_never_empty() {
    let bytes = decode_bytes(&config(), 10);
    assert_eq!(bytes.hidden, 32);
    assert_eq!(bytes.kv, 16);
    assert_eq!(bytes.intermediate, 96);
    assert_eq!(bytes.logits, 12);
    assert_eq!(bytes.argmax_index, 4);
    assert_eq!(bytes.cache, 160);
    assert_eq!(decode_bytes(&config(), 0).cache, 1);
}

#[test]
fn query_heads_share_key_heads() {
    let heads: Vec<usize> = (0..4).map(|head| kv_head(&config(), head)).collect();
    assert_eq!(heads, vec![0, 0, 1, 1]);
}

#[test]
fn model_checks_what_it_is_handed() {
    let model = model(QwenProjectionBackend::Cpu);
    assert!(model.forward_layer_batched(16, 2, 0).is_ok());
    assert_eq!(
        said(model.forward_layer_batched(17, 2, 0).unwrap_err()),
        "configuration error: batched layer input length 17 does not match batch 2 * hidden_size 8"
    );
    assert!(model.forward_layer_batched(0, 0, 0).is_err());
    assert_eq!(model.last_row(3), RowSpan { start: 16, end: 24 });
    assert_eq!(model.last_row(1), RowSpan { start: 0, end: 8 });
    let caches = model.allocate_kv_cache(3);
    assert_eq!(caches.len(), 2);
    assert_eq!(caches[1].key(2, 1, 1), 0);
    assert!(!model.forward_hidden_decode(true));
    assert!(!model.project_next_token(true));
}

#[test]
fn probes_are_launched_in_tiles() {
    let plan = run_f16_matmul(6, 12, 2, 4, 3).unwrap();
    assert_eq!(
        plan.grid,
        Grid::Groups(Size {
            width: 1,
            height: 1,
            depth: 1
        })
    );
    assert_eq!(
        plan.threads,
        Size {
            width: 16,
            height: 16,
            depth: 1
        }
    );
    assert_eq!(plan.dims, vec![2, 4, 3]);
    assert_eq!(plan.output_len, 8);
    assert_eq!(plan.output_bytes, 32);
    assert_eq!(
        said(run_f16_matmul(5, 12, 2, 4, 3).unwrap_err()),
        "configuration error: lhs length 5 does not match m*k 6"
    );
    assert_eq!(
        said(run_f16_matmul(6, 11, 2, 4, 3).unwrap_err()),
        "configuration error: rhs length 11 does not match k*n 12"
    );
    let plan = run_f16_matvec(3, 51, 17, 3).unwrap();
    assert_eq!(plan.grid, Grid::Groups(line(2)));
    assert_eq!(
        said(run_f16_matvec(2, 51, 17, 3).unwrap_err()),
        "configuration error: input length 2 does not match k 3"
    );
    assert_eq!(
        said(run_f16_matvec(3, 50, 17, 3).unwrap_err()),
        "configuration error: weight length 50 does not match k*n 51"
    );
}

#[test]
fn probes_of_rows_are_checked() {
    let plan = run_rmsnorm_f16_to_f32(8, 4, 2, 4).unwrap();
    assert_eq!(plan.grid, Grid::Groups(line(2)));
    assert_eq!(plan.dims, vec![2, 4]);
    assert_eq!(
        said(run_rmsnorm_f16_to_f32(7, 4, 2, 4).unwrap_err()),
        "configuration error: input length 7 does not match rows*cols 8"
    );
    assert_eq!(
        said(run_rmsnorm_f16_to_f32(8, 3, 2, 4).unwrap_err()),
        "configuration error: weight length 3 does not match cols 4"
    );
    assert_eq!(run_softmax_f32(8, 2, 4).unwrap().output_len, 8);
    assert!(run_softmax_f32(9, 2, 4).is_err());
    let plan = run_rope_f16_to_f32(8, 4, 4, 2, 4).unwrap();
    assert_eq!(plan.grid, Grid::Threads(line(8)));
    assert_eq!(
        said(run_rope_f16_to_f32(6, 3, 3, 2, 3).unwrap_err()),
        "configuration error: RoPE dims must be even, got 3"
    );
    assert_eq!(
        said(run_rope_f16_to_f32(7, 4, 4, 2, 4).unwrap_err()),
        "configuration error: input length 7 does not match rows*dims 8"
    );
    assert_eq!(
        said(run_rope_f16_to_f32(8, 4, 3, 2, 4).unwrap_err()),
        "configuration error: cos/sin lengths must match dims 4, got 4/3"
    );
    assert_eq!(rope_pair(1, 4), 3);
    assert_eq!(rope_pair(3, 4), 1);
}

#[test]
fn probes_of_vectors_are_checked() {
    assert_eq!(run_swiglu_f32(5, 5).unwrap().output_bytes, 20);
    assert_eq!(
        said(run_swiglu_f32(5, 6).unwrap_err()),
        "configuration error: gate/up lengths must match, got 5/6"
    );
    assert_eq!(run_greedy_argmax_f32(9).unwrap().dims, vec![9]);
    assert_eq!(
        said(run_greedy_argmax_f32(0).unwrap_err()),
        "configuration error: cannot sample from empty logits"
    );
}

#[test]
fn probes_of_attention_are_checked() {
    assert_eq!(
        run_attention_decode_f16_to_f32(4, 8, 8, 2, 4).unwrap().dims,
        vec![2, 4]
    );
    assert_eq!(
        said(run_attention_decode_f16_to_f32(4, 8, 8, 257, 4).unwrap_err()),
        "configuration error: attention decode scaffold supports seq <= 256, got 257"
    );
    assert_eq!(
        said(run_attention_decode_f16_to_f32(3, 8, 8, 2, 4).unwrap_err()),
        "configuration error: query length 3 does not match head_dim 4"
    );
    assert_eq!(
        said(run_attention_decode_f16_to_f32(4, 8, 7, 2, 4).unwrap_err()),
        "configuration error: key/value lengths must match seq*head_dim 8, got 8/7"
    );
    let plan = run_kv_cache_append_f16(8, 8, 4, 4, 2, 4, 1).unwrap();
    assert_eq!(plan.output_bytes, 16);
    assert_eq!(plan.dims, vec![4, 1]);
    assert_eq!(
        said(run_kv_cache_append_f16(8, 8, 4, 4, 2, 4, 2).unwrap_err()),
        "configuration error: KV position 2 is outside seq 2"
    );
    assert_eq!(
        said(run_kv_cache_append_f16(7, 8, 4, 4, 2, 4, 1).unwrap_err()),
        "configuration error: KV cache lengths must match seq*head_dim 8, got 7/8"
    );
    assert_eq!(
        said(run_kv_cache_append_f16(8, 8, 4, 5, 2, 4, 1).unwrap_err()),
        "configuration error: new KV lengths must match head_dim 4, got 4/5"
    );
}

#[test]
fn timed_kernels_are_described() {
    let bench = run_hot_f16_matmul_bench(1, 4, 8, 10);
    assert_eq!(bench.shape, "m=1,n=4,k=8");
    assert_eq!(bench.logical_ops_per_iter, 64);
    assert_eq!(bench.total_ops, 640);
    let bench = run_hot_f16_matvec_bench(4, 8, 10).unwrap();
    assert_eq!(bench.shape, "n=4,k=8");
    assert_eq!(bench.total_ops, 640);
    assert_eq!(
        said(run_hot_f16_matvec_bench(4, 8, 0).unwrap_err()),
        "configuration error: hot matvec benchmark iterations must be greater than zero"
    );
    let bench = run_hot_f16_matmul_bench(2, 4, 8, 10);
    assert_eq!(bench.launch.kernel, ProbeKernel::HotMatmul);
    let half = |len, seed| BenchInput {
        kind: InputKind::Half,
        len,
        seed,
    };
    assert_eq!(bench.inputs, vec![half(16, 0xA11CE), half(32, 0xB0B)]);
    let bench = run_hot_f16_matvec_bench(4, 8, 10).unwrap();
    assert_eq!(bench.launch.kernel, ProbeKernel::HotMatvec);
    assert_eq!(bench.inputs, vec![half(8, 0xDEC0DE), half(32, 0xDEC0DF)]);
    let cases = run_qwen_15b_hot_bench(1).unwrap();
    assert_eq!(cases.len(), 2);
    assert_eq!(cases[0].name, "matmul_f16_1x1536x1536_hot");
    assert_eq!(cases[0].kernel, ProbeKernel::HotMatmul);
    assert_eq!((cases[0].m, cases[0].n, cases[0].k), (1, 1536, 1536));
    assert_eq!(cases[1].name, "matvec_f16_1536x1536_decode_hot");
    assert_eq!(cases[1].kernel, ProbeKernel::HotMatvec);
    assert_eq!((cases[1].n, cases[1].k), (1536, 1536));
    assert_eq!(
        said(run_qwen_15b_hot_bench(0).unwrap_err()),
        "configuration error: hot benchmark iterations must be greater than zero"
    );
}

#[test]
fn outputs_have_to_be_finite() {
    assert!(is_finite(1.5_f32.to_bits()));
    assert!(is_finite(f32::MAX.to_bits()));
    assert!(!is_finite(f32::INFINITY.to_bits()));
    assert!(!is_finite(f32::NAN.to_bits()));
    assert!(check_hot_output(ProbeKernel::HotMatmul, 0).is_ok());
    assert!(matches!(
        check_hot_output(ProbeKernel::HotMatvec, f32::NAN.to_bits()),
        Err(TinyAgentError::Backend(_))
    ));
    assert_eq!(
        said(missing_device()),
        "configuration error: no default Metal device found; TinyEngine requires Apple Silicon or a Metal-capable GPU"
    );
}

#[test]
fn quick_benchmark_has_its_cases() {
    let cases = run_qwen_15b_smoke_bench();
    assert_eq!(cases.len(), 8);
    assert_eq!(cases[0].name, "matmul_f16_1x1536x1536");
    assert_eq!(cases[0].logical_ops, 4_718_592);
    assert_eq!(cases[0].inputs[1].len, 1536 * 1536);
    assert_eq!(cases[3].inputs[1].kind, InputKind::Unit);
    assert_eq!(cases[5].logical_ops, 49_152);
    assert_eq!(cases[7].output_len, 524_288);
}

#[test]
fn probes_name_their_kernels_and_operands() {
    let plan = run_add_kernel_probe();
    assert_eq!(plan.grid, Grid::Threads(line(4)));
    assert_eq!(plan.threads, line(4));
    assert!(plan.dims.is_empty());
    assert_eq!((plan.output_len, plan.output_bytes), (4, 16));
    assert_eq!(
        plan.kernel.operands(),
        vec![Operand::Input(0), Operand::Input(1), Operand::Output(0)]
    );
    let two = vec![Operand::Input(0), Operand::Input(1), Operand::Output(0), Operand::Dims];
    let cases = [
        (run_f16_matmul(6, 12, 2, 4, 3), ProbeKernel::Matmul, two.clone()),
        (run_f16_matvec(3, 51, 17, 3), ProbeKernel::Matvec, two.clone()),
        (run_swiglu_f32(5, 5), ProbeKernel::SwiGlu, two.clone()),
        (
            run_rmsnorm_f16_to_f32(8, 4, 2, 4),
            ProbeKernel::RmsNorm,
            vec![Operand::Input(0), Operand::Input(1), Operand::Output(0), Operand::Dims, Operand::Number],
        ),
        (
            run_rope_f16_to_f32(8, 4, 4, 2, 4),
            ProbeKernel::Rope,
            vec![Operand::Input(0), Operand::Input(1), Operand::Input(2), Operand::Output(0), Operand::Dims],
        ),
        (
            run_softmax_f32(8, 2, 4),
            ProbeKernel::Softmax,
            vec![Operand::Input(0), Operand::Output(0), Operand::Dims],
        ),
        (
            run_attention_decode_f16_to_f32(4, 8, 8, 2, 4),
            ProbeKernel::Attention,
            vec![Operand::Input(0), Operand::Input(1), Operand::Input(2), Operand::Output(0), Operand::Dims, Operand::Number],
        ),
        (
            run_greedy_argmax_f32(9),
            ProbeKernel::GreedySampler,
            vec![Operand::Input(0), Operand::Output(0), Operand::Output(1), Operand::Dims],
        ),
        (
            run_kv_cache_append_f16(8, 8, 4, 4, 2, 4, 1),
            ProbeKernel::KvAppend,
            vec![Operand::Updated(0), Operand::Updated(1), Operand::Input(2), Operand::Input(3), Operand::Dims],
        ),
    ];
    for (plan, kernel, operands) in cases {
        let plan = plan.unwrap();
        assert_eq!(plan.kernel, kernel);
        assert_eq!(kernel.operands(), operands);
    }
    assert_eq!(ProbeKernel::HotMatmul.operands(), two);
    assert_eq!(ProbeKernel::HotMatvec.operands(), two);
}

#[test]
fn projections_name_their_kernels_and_arguments() {
    let part = ProjectionArgument::Tensor;
    let layer = layer();
    let steps = matvec_many(&layer.project_qkv(&uploads()), 8).unwrap();
    assert_eq!(steps[2].kernel, Kernel::Q4Matvec);
    assert_eq!(
        steps[2].arguments(),
        vec![
            ProjectionArgument::Input,
            part(TensorBuffer::Q4Weight),
            part(TensorBuffer::Scales),
            part(TensorBuffer::Biases),
            ProjectionArgument::Bias(2),
            ProjectionArgument::TensorOutput,
            part(TensorBuffer::Dims),
        ]
    );
    let steps = matmul_many_batched(&layer.project_gate_up(&uploads()), 24, 3).unwrap();
    assert_eq!(steps[1].kernel, Kernel::Q4Matmul);
    assert_eq!(
        steps[1].arguments(),
        vec![
            ProjectionArgument::Input,
            part(TensorBuffer::Q4Weight),
            part(TensorBuffer::Scales),
            part(TensorBuffer::Biases),
            part(TensorBuffer::ZeroLinearBias),
            ProjectionArgument::ScratchOutput(1),
            part(TensorBuffer::Dims),
            ProjectionArgument::Batch,
        ]
    );
    let bytes = byte_matrix("b", 5, 8);
    let step = matvec_q8(
        &ProjectionRequest {
            tensor: &bytes,
            bias_len: None,
            upload: Some(Q8_UPLOAD),
        },
        8,
    )
    .unwrap();
    assert_eq!(step.kernel, Kernel::Q8Matvec);
    assert_eq!(
        step.arguments(),
        vec![
            ProjectionArgument::Input,
            part(TensorBuffer::Q8Values),
            part(TensorBuffer::Scales),
            part(TensorBuffer::ZeroLinearBias),
            ProjectionArgument::TensorOutput,
            part(TensorBuffer::Dims),
        ]
    );
}

#[test]
fn batched_layer_has_its_steps() {
    let model = model(QwenProjectionBackend::Cpu);
    let steps = model.forward_layer_batched(16, 2, 5).unwrap();
    assert_eq!(steps.len(), 13);
    assert_eq!(
        steps[1],
        RowStep::ProjectQkv {
            input: BufferName::AttnInput
        }
    );
    assert_eq!(
        steps[2],
        RowStep::Rotate {
            rows: BufferName::Q,
            heads: 4,
            start: 5
        }
    );
    assert_eq!(
        steps[3],
        RowStep::Rotate {
            rows: BufferName::K,
            heads: 2,
            start: 5
        }
    );
    assert_eq!(steps[4], RowStep::Remember { start: 5 });
    assert_eq!(
        steps[7],
        RowStep::Add {
            left: BufferName::Hidden,
            right: BufferName::AttnOut,
            output: BufferName::Residual
        }
    );
    assert_eq!(
        steps[12],
        RowStep::Add {
            left: BufferName::Residual,
            right: BufferName::MlpOut,
            output: BufferName::Hidden
        }
    );
}

#[test]
fn rows_follow_each_other() {
    assert_eq!(row_span(0, 4), RowSpan { start: 0, end: 4 });
    assert_eq!(row_span(3, 4), RowSpan { start: 12, end: 16 });
    assert_eq!(row_span(3, 0), RowSpan { start: 0, end: 0 });
}

fn decoded(max_tokens: usize, predictions: &[u32]) -> (usize, usize) {
    let mut generation = Generation::begin(3, max_tokens);
    let mut steps = 0;
    for id in predictions {
        match generation.accept(*id) {
            GenerationStep::Decode { .. } => steps += 1,
            GenerationStep::Finished => break,
        }
    }
    (generation.generated().len(), steps)
}

#[test]
fn last_kept_token_is_not_decoded() {
    assert_eq!(decoded(3, &[1, 2, 3, 4]), (3, 2));
    assert_eq!(decoded(3, &[1, 151_645, 3]), (1, 1));
    assert_eq!(decoded(3, &[151_643]), (0, 0));
    assert_eq!(decoded(1, &[9]), (1, 0));
}

#[test]
fn greedy_sampler_probe_matches_cpu() {
    let logits = [
        -1.0_f32, 0.25, 3.5, 2.75, 3.5, -0.5, 1.25, 0.0, 4.25, 4.25, -2.0, 0.75,
    ];
    let plan = run_greedy_argmax_f32(logits.len()).unwrap();
    assert_eq!(plan.dims, vec![12]);
    let (token, logit) = cpu_greedy_argmax_f32(&bits(&logits));
    assert_eq!(token, 8);
    assert_eq!(f32::from_bits(logit), 4.25);
}

#[test]
fn kv_cache_append_probe_matches_cpu() {
    let halves = |values: &[f32]| -> Vec<u16> {
        values
            .iter()
            .map(|value| half::f16::from_f32(*value).to_bits())
            .collect()
    };
    let initial = halves(&[-9.0; 16]);
    let k_new = halves(&[0.5, -1.0, 1.5, 0.25]);
    let v_new = halves(&[-0.75, 0.5, 2.0, -1.25]);
    let plan = run_kv_cache_append_f16(16, 16, 4, 4, 4, 4, 2).unwrap();
    assert_eq!(plan.dims, vec![4, 2]);
    let (keys, values) = cpu_kv_cache_append_f16(&initial, &initial, &k_new, &v_new, 2);
    assert_eq!(keys[..8], initial[..8]);
    assert_eq!(keys[8..12], k_new);
    assert_eq!(keys[12..], initial[12..]);
    assert_eq!(values[..8], initial[..8]);
    assert_eq!(values[8..12], v_new);
    assert_eq!(values[12..], initial[12..]);
}
