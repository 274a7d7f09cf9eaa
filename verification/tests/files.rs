use tinyagent::gguf::{GgufReader, GgufTensorInfo};
use tinyagent::gguf_file::{align_up, gguf_tensor_nbytes, quantized_tensor_nbytes, GgufFile};
use tinyagent::hf_config::{
    double_to_u64, read_qwen_config, read_safetensors_index, FloatBits, QwenRuntimeConfig,
};
use tinyagent::model::{QwenProjectionBackend, QwenRuntimeModel};
use tinyagent::quant::{bf16_to_f32, QuantEncoding, ScaleFormat};
use tinyagent::safetensors::{header_end, header_fields, HeaderEntry, SafeTensorFile, TensorInfo};
use tinyagent::tokens::{
    clip_prompt, decode_tokens, encode_prompt, format_qwen_chat_prompt, generated_text,
    load_tokenizer,
};

fn text(out: &mut Vec<u8>, value: &str) {
    out.extend((value.len() as u64).to_le_bytes());
    out.extend(value.as_bytes());
}

struct Tensor {
    name: String,
    dims: Vec<u64>,
    kind: i32,
    data: Vec<u8>,
}

fn gguf_bytes(version: u32, metadata: &[(&str, i32, Vec<u8>)], tensors: &[Tensor]) -> Vec<u8> {
    let mut out = b"GGUF".to_vec();
    out.extend(version.to_le_bytes());
    out.extend((tensors.len() as u64).to_le_bytes());
    out.extend((metadata.len() as u64).to_le_bytes());
    for (key, kind, value) in metadata {
        text(&mut out, key);
        out.extend(kind.to_le_bytes());
        out.extend(value);
    }
    let mut data = Vec::new();
    for tensor in tensors {
        text(&mut out, &tensor.name);
        out.extend((tensor.dims.len() as u32).to_le_bytes());
        for dim in &tensor.dims {
            out.extend(dim.to_le_bytes());
        }
        out.extend(tensor.kind.to_le_bytes());
        out.extend((data.len() as u64).to_le_bytes());
        data.extend(&tensor.data);
        while data.len() % 32 != 0 {
            data.push(0);
        }
    }
    while out.len() % 32 != 0 {
        out.push(0);
    }
    out.extend(data);
    out
}

fn word(value: u32) -> Vec<u8> {
    value.to_le_bytes().to_vec()
}

fn array(kind: i32, len: u64, items: &[u8]) -> Vec<u8> {
    let mut out = kind.to_le_bytes().to_vec();
    out.extend(len.to_le_bytes());
    out.extend(items);
    out
}

fn singles(name: &str, values: &[f32]) -> Tensor {
    Tensor {
        name: name.to_string(),
        dims: vec![values.len() as u64],
        kind: 0,
        data: values.iter().flat_map(|value| value.to_le_bytes()).collect(),
    }
}

/// A block with the given scale whose codes are the places modulo 16.
fn q4_block(scale: u16) -> Vec<u8> {
    let mut out = scale.to_le_bytes().to_vec();
    for place in 0..16_u8 {
        out.push(place | ((place + 16) % 16) << 4);
    }
    out
}

fn q4(name: &str, rows: u64) -> Tensor {
    Tensor {
        name: name.to_string(),
        dims: vec![32, rows],
        kind: 2,
        data: (0..rows).flat_map(|row| q4_block(0x3C00 + row as u16)).collect(),
    }
}

fn q8(name: &str, rows: u64) -> Tensor {
    let mut data = Vec::new();
    for row in 0..rows {
        data.extend((0x3800 + row as u16).to_le_bytes());
        for place in 0..32_i32 {
            data.push((place - 16 + row as i32) as i8 as u8);
        }
    }
    Tensor {
        name: name.to_string(),
        dims: vec![32, rows],
        kind: 8,
        data,
    }
}

fn model_metadata() -> Vec<(&'static str, i32, Vec<u8>)> {
    let mut token = Vec::new();
    text(&mut token, "a");
    text(&mut token, "b");
    vec![
        ("qwen2.embedding_length", 4, word(32)),
        ("qwen2.attention.head_count", 4, word(2)),
        ("qwen2.feed_forward_length", 10, 32_u64.to_le_bytes().to_vec()),
        ("qwen2.block_count", 4, word(1)),
        ("qwen2.attention.head_count_kv", 4, word(1)),
        ("tokenizer.ggml.tokens", 9, array(8, 2, &token)),
        ("qwen2.rope.freq_base", 6, 10000.0_f32.to_le_bytes().to_vec()),
        (
            "qwen2.attention.layer_norm_rms_epsilon",
            6,
            1e-6_f32.to_le_bytes().to_vec(),
        ),
    ]
}

fn model_tensors() -> Vec<Tensor> {
    vec![
        q4("token_embd.weight", 2),
        singles("output_norm.weight", &[1.0; 32]),
        singles("blk.0.attn_norm.weight", &[1.0; 32]),
        singles("blk.0.ffn_norm.weight", &[1.0; 32]),
        q4("blk.0.attn_q.weight", 32),
        q4("blk.0.attn_k.weight", 16),
        q4("blk.0.attn_v.weight", 16),
        q4("blk.0.attn_output.weight", 32),
        singles("blk.0.attn_q.bias", &[0.5; 32]),
        singles("blk.0.attn_k.bias", &[0.5; 16]),
        singles("blk.0.attn_v.bias", &[0.5; 16]),
        q4("blk.0.ffn_gate.weight", 32),
        q4("blk.0.ffn_up.weight", 32),
        q4("blk.0.ffn_down.weight", 32),
    ]
}

fn refusal(bytes: Vec<u8>) -> String {
    match GgufFile::read(bytes) {
        Ok(_) => panic!("the file is refused"),
        Err(error) => error.message(),
    }
}

#[test]
fn gguf_needs_its_magic_and_version() {
    assert_eq!(
        refusal(b"GGU".to_vec()),
        "configuration error: truncated GGUF file"
    );
    assert_eq!(
        refusal(b"GGUX\x03\0\0\0".to_vec()),
        "configuration error: invalid GGUF file: missing GGUF magic"
    );
    assert_eq!(
        refusal(gguf_bytes(2, &[], &[])),
        "configuration error: unsupported GGUF version 2; expected version 3"
    );
    assert!(GgufFile::read(gguf_bytes(3, &[], &[])).is_ok());
}

#[test]
fn gguf_metadata_is_read_by_type() {
    let file = GgufFile::read(gguf_bytes(
        3,
        &[
            ("u32", 4, word(7)),
            ("u64", 10, 8_u64.to_le_bytes().to_vec()),
            ("float", 6, 1.5_f32.to_le_bytes().to_vec()),
            ("flag", 7, vec![1]),
            ("i16", 3, vec![0, 0]),
            ("bytes", 9, array(0, 3, &[1, 2, 3])),
            ("u32", 4, word(9)),
        ],
        &[],
    ))
    .unwrap();
    assert_eq!(file.required_usize("u32").unwrap(), 9);
    assert_eq!(file.required_usize("u64").unwrap(), 8);
    assert_eq!(f32::from_bits(file.required_f32("float").unwrap()), 1.5);
    assert_eq!(file.metadata_array_len("bytes"), Some(3));
    assert_eq!(file.metadata_array_len("u32"), None);
    assert_eq!(
        file.required_usize("flag").unwrap_err().message(),
        "configuration error: missing or invalid GGUF metadata `flag`"
    );
    assert_eq!(
        file.required_f32("u32").unwrap_err().message(),
        "configuration error: missing or invalid GGUF metadata `u32`"
    );
}

#[test]
fn gguf_metadata_of_unknown_type_is_refused() {
    assert_eq!(
        refusal(gguf_bytes(3, &[("x", 13, Vec::new())], &[])),
        "configuration error: unsupported GGUF metadata value type 13"
    );
    assert_eq!(
        refusal(gguf_bytes(3, &[("x", 9, array(9, 1, &[]))], &[])),
        "configuration error: unsupported GGUF metadata value type 9"
    );
    assert_eq!(
        refusal(gguf_bytes(3, &[("x", 9, array(-1, 1, &[]))], &[])),
        "configuration error: unsupported GGUF metadata value type -1"
    );
}

#[test]
fn gguf_texts_are_utf8() {
    let mut bytes = b"GGUF\x03\0\0\0".to_vec();
    bytes.extend(0_u64.to_le_bytes());
    bytes.extend(1_u64.to_le_bytes());
    bytes.extend(2_u64.to_le_bytes());
    bytes.extend([0x61, 0xFF]);
    let expected = String::from_utf8(vec![0x61, 0xFF]).unwrap_err();
    assert_eq!(
        refusal(bytes),
        format!("configuration error: invalid UTF-8 string in GGUF: {expected}")
    );
}

#[test]
fn gguf_alignment_is_a_power_of_two() {
    assert_eq!(
        refusal(gguf_bytes(3, &[("general.alignment", 4, word(48))], &[])),
        "configuration error: invalid GGUF general.alignment 48"
    );
    assert_eq!(
        refusal(gguf_bytes(3, &[("general.alignment", 4, word(0))], &[])),
        "configuration error: invalid GGUF general.alignment 0"
    );
    assert!(GgufFile::read(gguf_bytes(3, &[("general.alignment", 4, word(64))], &[])).is_ok());
}

#[test]
fn alignment_rounds_up() {
    assert_eq!(align_up(0, 32).unwrap(), 0);
    assert_eq!(align_up(1, 32).unwrap(), 32);
    assert_eq!(align_up(32, 32).unwrap(), 32);
    assert_eq!(align_up(33, 1).unwrap(), 33);
    assert_eq!(
        align_up(usize::MAX, 32).unwrap_err().message(),
        "configuration error: GGUF alignment overflow"
    );
}

#[test]
fn tensor_sizes_are_counted() {
    let info = |ggml_type: i32, dims: Vec<usize>| GgufTensorInfo {
        ggml_type,
        dims,
        offset: 0,
    };
    assert_eq!(gguf_tensor_nbytes(&info(0, vec![3, 5])).unwrap(), 60);
    assert_eq!(gguf_tensor_nbytes(&info(2, vec![64, 2])).unwrap(), 72);
    assert_eq!(gguf_tensor_nbytes(&info(8, vec![32, 3])).unwrap(), 102);
    assert_eq!(gguf_tensor_nbytes(&info(0, Vec::new())).unwrap(), 4);
    assert_eq!(
        gguf_tensor_nbytes(&info(1, vec![1])).unwrap_err().message(),
        "configuration error: unsupported GGUF tensor type 1"
    );
    assert_eq!(
        gguf_tensor_nbytes(&info(0, vec![usize::MAX, 2]))
            .unwrap_err()
            .message(),
        "configuration error: GGUF tensor element count overflow"
    );
    assert_eq!(
        gguf_tensor_nbytes(&info(0, vec![usize::MAX]))
            .unwrap_err()
            .message(),
        "configuration error: GGUF F32 tensor byte size overflow"
    );
    assert_eq!(
        quantized_tensor_nbytes(33, 32, 18, "Q4_0")
            .unwrap_err()
            .message(),
        "configuration error: GGUF Q4_0 tensor element count 33 is not divisible by 32"
    );
    assert_eq!(
        quantized_tensor_nbytes(usize::MAX - 31, 32, 34, "Q8_0")
            .unwrap_err()
            .message(),
        "configuration error: GGUF Q8_0 tensor byte size overflow"
    );
}

#[test]
fn reader_reads_little_endian() {
    let bytes = [1, 2, 3, 4, 0xFF, 0xFF, 0xFF, 0xFF, 1, 0, 0, 0, 0, 0, 0, 0x80, 9];
    let mut reader = GgufReader::new(&bytes);
    assert_eq!(reader.read_u32().unwrap(), 0x0403_0201);
    assert_eq!(reader.read_i32().unwrap(), -1);
    assert_eq!(reader.read_u64().unwrap(), 0x8000_0000_0000_0001);
    assert_eq!(
        reader.read_bytes(2).unwrap_err().message(),
        "configuration error: truncated GGUF file"
    );
    assert_eq!(reader.read_bytes(1).unwrap(), &[9]);
}

#[test]
fn floats_of_a_gguf_file_are_its_bytes() {
    let file = GgufFile::read(gguf_bytes(3, &[], &[singles("f", &[1.0, -2.5, 0.0])])).unwrap();
    let words = file.load_f32("f").unwrap();
    let values: Vec<f32> = words.into_iter().map(f32::from_bits).collect();
    assert_eq!(values, vec![1.0, -2.5, 0.0]);
    assert_eq!(
        file.load_f32("g").unwrap_err().message(),
        "configuration error: missing GGUF tensor g"
    );
    assert_eq!(
        file.load_q4_0("f").unwrap_err().message(),
        "configuration error: f must be a rank-2 GGUF Q4_0 tensor"
    );
    assert_eq!(
        file.load_q8_0("f").unwrap_err().message(),
        "configuration error: f must be a rank-2 GGUF Q8_0 tensor"
    );
}

#[test]
fn four_bit_blocks_are_laid_out_in_words() {
    let file = GgufFile::read(gguf_bytes(3, &[], &[q4("w", 2)])).unwrap();
    assert_eq!(
        file.load_f32("w").unwrap_err().message(),
        "configuration error: w must have GGUF type F32"
    );
    let tensor = file.load_q4_0("w").unwrap();
    assert_eq!(tensor.encoding, QuantEncoding::AffineQ4);
    assert_eq!((tensor.out_dim, tensor.in_dim), (2, 32));
    assert_eq!(tensor.packed_per_row, 4);
    assert_eq!(tensor.groups_per_row, 1);
    assert_eq!(tensor.group_size, 32);
    assert_eq!(tensor.scale_format, ScaleFormat::Half);
    assert_eq!(tensor.scales, vec![0x3C00, 0x3C01]);
    assert_eq!(tensor.weight[0], 0x7654_3210);
    assert_eq!(tensor.weight[1], 0xFEDC_BA98);
    assert!(tensor.is_backed());
    for input in 0..32 {
        assert_eq!(tensor.code(1, input), input as u32 % 16);
    }
    assert_eq!(tensor.group(1, 31), 1);
}

#[test]
fn bytes_of_a_gguf_file_are_signed() {
    let file = GgufFile::read(gguf_bytes(3, &[], &[q8("w", 2)])).unwrap();
    let tensor = file.load_q8_0("w").unwrap();
    assert_eq!(tensor.encoding, QuantEncoding::GgufQ8_0);
    assert_eq!(tensor.scales, vec![0x3800, 0x3801]);
    assert!(tensor.is_backed());
    assert_eq!(tensor.byte(0, 0), -16);
    assert_eq!(tensor.byte(1, 31), 16);
}

#[test]
fn odd_widths_are_refused() {
    let narrow = Tensor {
        name: "n".to_string(),
        dims: vec![16, 2],
        kind: 2,
        data: vec![0; 18],
    };
    let file = GgufFile::read(gguf_bytes(3, &[], &[narrow])).unwrap();
    assert_eq!(
        file.load_q4_0("n").unwrap_err().message(),
        "configuration error: n input dimension 16 is not divisible by 32"
    );
}

#[test]
fn data_out_of_bounds_is_refused() {
    let mut bytes = gguf_bytes(3, &[], &[singles("f", &[1.0; 8])]);
    bytes.truncate(bytes.len() - 1);
    let file = GgufFile::read(bytes).unwrap();
    assert_eq!(
        file.tensor_bytes("f").unwrap_err().message(),
        "configuration error: GGUF tensor f data is out of bounds"
    );
}

#[test]
fn gguf_model_loads_and_fits() {
    let file = GgufFile::read(gguf_bytes(3, &model_metadata(), &model_tensors())).unwrap();
    let config = QwenRuntimeConfig::read_gguf(&file).unwrap();
    assert_eq!(config.hidden_size, 32);
    assert_eq!(config.head_dim, 16);
    assert_eq!(config.vocab_size, 2);
    assert_eq!(config.rope_theta, FloatBits::Single(10000.0_f32.to_bits()));
    assert!(config.tie_word_embeddings);
    assert!(config.kv_dim_fits());
    let model = QwenRuntimeModel::load_gguf(&file, QwenProjectionBackend::Cpu).unwrap();
    assert_eq!(model.layers.len(), 1);
    assert_eq!(model.norm_weight, vec![1.0_f32.to_bits(); 32]);
    assert!(model.lm_head.is_none());
    assert_eq!(model.project_logits().name, "token_embd.weight");
    assert!(model.prefill_hidden(&vec![0, 1]).is_ok());
    assert_eq!(
        model.prefill_hidden(&vec![0, 2]).unwrap_err().message(),
        "configuration error: token_embd.weight row 2 out of range 2"
    );
    assert_eq!(
        model.prefill_hidden(&Vec::new()).unwrap_err().message(),
        "configuration error: prefill requires at least one token"
    );
}

#[test]
fn gguf_model_with_a_head_uses_it() {
    let mut tensors = model_tensors();
    tensors.push(q8("output.weight", 2));
    let file = GgufFile::read(gguf_bytes(3, &model_metadata(), &tensors)).unwrap();
    let model = QwenRuntimeModel::load_gguf(&file, QwenProjectionBackend::Metal).unwrap();
    assert!(!model.config.tie_word_embeddings);
    assert_eq!(model.project_logits().name, "output.weight");
    assert!(model.project_next_token(true));
    assert!(!model.project_next_token(false));
    assert!(model.forward_hidden_decode(true));
}

#[test]
fn gguf_model_with_wrong_shapes_is_refused() {
    let mut tensors = model_tensors();
    tensors[5] = q4("blk.0.attn_k.weight", 17);
    let file = GgufFile::read(gguf_bytes(3, &model_metadata(), &tensors)).unwrap();
    assert_eq!(
        QwenRuntimeModel::load_gguf(&file, QwenProjectionBackend::Cpu)
            .unwrap_err()
            .message(),
        "configuration error: model.layers.0.self_attn.k_proj shape [out=17, in=32] does not match expected [16, 32]"
    );
    let mut tensors = model_tensors();
    tensors[1] = singles("output_norm.weight", &[1.0; 31]);
    let file = GgufFile::read(gguf_bytes(3, &model_metadata(), &tensors)).unwrap();
    assert_eq!(
        QwenRuntimeModel::load_gguf(&file, QwenProjectionBackend::Cpu)
            .unwrap_err()
            .message(),
        "configuration error: output_norm.weight length 31 does not match expected 32"
    );
    let file = GgufFile::read(gguf_bytes(3, &[], &[])).unwrap();
    assert_eq!(
        QwenRuntimeModel::load_gguf(&file, QwenProjectionBackend::Cpu)
            .unwrap_err()
            .message(),
        "configuration error: missing or invalid GGUF metadata `qwen2.embedding_length`"
    );
}

const CONFIG: &str = r#"{
    "hidden_size": 8, "intermediate_size": 8, "num_hidden_layers": 1,
    "num_attention_heads": 2, "num_key_value_heads": 1, "vocab_size": 2,
    "max_position_embeddings": 64, "rope_theta": 10000.5
}"#;

#[test]
fn package_configuration_is_read_from_json() {
    let config = read_qwen_config(CONFIG).unwrap();
    assert_eq!(config.hidden_size, 8);
    assert_eq!(config.head_dim, 4);
    assert_eq!(config.num_key_value_heads, 1);
    assert_eq!(config.rope_theta, 10000);
    let nested = format!("{{\"text_config\": {CONFIG}, \"hidden_size\": 3}}");
    assert_eq!(read_qwen_config(&nested).unwrap(), config);
    assert_eq!(
        read_qwen_config("{\"hidden_size\": 8}").unwrap_err(),
        "missing or invalid `num_attention_heads` in Hugging Face config.json"
    );
    assert_eq!(
        read_qwen_config("{\"hidden_size\": -8}").unwrap_err(),
        "missing or invalid `hidden_size` in Hugging Face config.json"
    );
    assert_eq!(
        read_qwen_config("{\"hidden_size\": 8, \"num_attention_heads\": 3}").unwrap_err(),
        "`hidden_size` must be divisible by `num_attention_heads` when `head_dim` is absent"
    );
    assert_eq!(
        read_qwen_config("{\"hidden_size\": 8, \"num_attention_heads\": 0}").unwrap_err(),
        "`num_attention_heads` must be greater than zero in Hugging Face config.json"
    );
    let error = serde_json::from_str::<serde_json::Value>("{").unwrap_err();
    assert_eq!(read_qwen_config("{").unwrap_err(), error.to_string());
}

#[test]
fn runtime_configuration_is_read_from_json() {
    let config = QwenRuntimeConfig::read(CONFIG).unwrap();
    assert_eq!(config.head_dim, 4);
    assert_eq!(config.rope_theta, FloatBits::Double(10000.5_f64.to_bits()));
    assert_eq!(config.rms_norm_eps, FloatBits::Double(1e-6_f64.to_bits()));
    assert!(config.tie_word_embeddings);
    let config = QwenRuntimeConfig::read(
        r#"{"hidden_size": 9, "num_attention_heads": 2, "intermediate_size": 1,
            "num_hidden_layers": 1, "vocab_size": 1, "tie_word_embeddings": false,
            "rope_parameters": {"rope_theta": 5}, "rms_norm_eps": 0.5, "head_dim": 7}"#,
    )
    .unwrap();
    assert_eq!(config.head_dim, 7);
    assert_eq!(config.num_key_value_heads, 2);
    assert_eq!(config.rope_theta, FloatBits::Double(5.0_f64.to_bits()));
    assert_eq!(config.rms_norm_eps, FloatBits::Double(0.5_f64.to_bits()));
    assert_eq!(
        config.check_tied().unwrap_err().message(),
        "configuration error: only tied Qwen embeddings are supported by the minimal runtime"
    );
    assert_eq!(
        QwenRuntimeConfig::read("[]").unwrap_err().message(),
        "configuration error: missing or invalid `hidden_size` in config.json"
    );
    let error = serde_json::from_str::<serde_json::Value>("nope").unwrap_err();
    assert_eq!(
        QwenRuntimeConfig::read("nope").unwrap_err().message(),
        format!("configuration error: failed to parse config.json: {error}")
    );
}

#[test]
fn doubles_are_cut_to_integers() {
    for value in [
        0.0, -0.0, 0.9, 1.0, 1.5, -3.0, 1e6, 4503599627370497.5, 1.8446744073709552e19, 1e300,
        f64::INFINITY, f64::NEG_INFINITY, f64::NAN, 9007199254740993.0,
    ] {
        assert_eq!(double_to_u64(f64::to_bits(value)), value as u64, "{value}");
    }
}

#[test]
fn index_of_a_checkpoint_is_summed_up() {
    let text = r#"{"metadata": {"total_size": 12, "total_parameters": "x"}, "y": "é"}"#;
    let index = read_safetensors_index(text).unwrap();
    assert_eq!(index.index_bytes, text.len() as u64);
    assert_eq!(index.total_size_bytes, Some(12));
    assert_eq!(index.total_parameters, None);
    let index = read_safetensors_index("{}").unwrap();
    assert_eq!(index.total_size_bytes, None);
}

fn container(header: &str, data: &[u8]) -> Vec<u8> {
    let mut out = (header.len() as u64).to_le_bytes().to_vec();
    out.extend(header.as_bytes());
    out.extend(data);
    out
}

fn entries(bytes: &Vec<u8>) -> Vec<HeaderEntry> {
    let numbers = |value: &serde_json::Value| -> Vec<usize> {
        value
            .as_array()
            .unwrap()
            .iter()
            .map(|number| number.as_u64().unwrap() as usize)
            .collect()
    };
    header_fields(bytes)
        .unwrap()
        .into_iter()
        .map(|field| {
            let offsets = numbers(&field.value["data_offsets"]);
            HeaderEntry {
                name: field.name,
                info: Ok(TensorInfo {
                    dtype: field.value["dtype"].as_str().unwrap().to_string(),
                    shape: numbers(&field.value["shape"]),
                    data_offsets: [offsets[0], offsets[1]],
                }),
            }
        })
        .collect()
}

#[test]
fn safetensors_header_is_checked() {
    assert_eq!(
        header_end(&vec![0; 7]).unwrap_err().message(),
        "configuration error: invalid safetensors file: shorter than header"
    );
    assert_eq!(
        header_end(&vec![1, 0, 0, 0, 0, 0, 0, 0]).unwrap_err().message(),
        "configuration error: invalid safetensors file: truncated header"
    );
    assert_eq!(header_end(&container("{}", &[])).unwrap(), 10);
    let refused = |header: &str| match header_fields(&container(header, &[])) {
        Ok(_) => panic!("the header is refused"),
        Err(error) => error.message(),
    };
    assert_eq!(
        refused("[]"),
        "configuration error: safetensors header is not a JSON object"
    );
    let error = serde_json::from_slice::<serde_json::Value>(b"{]").unwrap_err();
    assert_eq!(
        refused("{]"),
        format!("configuration error: failed to parse safetensors header: {error}")
    );
}

#[test]
fn safetensors_metadata_is_no_tensor() {
    let bytes = container(
        r#"{"b": {"x": 1}, "__metadata__": {"format": "mlx"}, "a": null}"#,
        &[],
    );
    let fields = header_fields(&bytes).unwrap();
    let names: Vec<String> = fields.into_iter().map(|field| field.name).collect();
    assert_eq!(names, vec!["a", "b"]);
}

#[test]
fn undecoded_tensors_are_refused() {
    let bytes = container(r#"{"t": {}}"#, &[]);
    let entries = vec![HeaderEntry {
        name: "t".to_string(),
        info: Err("missing field `dtype`".to_string()),
    }];
    match SafeTensorFile::read(bytes, &entries) {
        Ok(_) => panic!("the directory is refused"),
        Err(error) => assert_eq!(
            error.message(),
            "configuration error: invalid safetensors tensor metadata for t: missing field `dtype`"
        ),
    }
}

/// The directory and the data of a model of one layer.
fn mlx_file() -> Vec<u8> {
    let mut header = String::from("{");
    let mut data: Vec<u8> = Vec::new();
    let mut put = |name: &str, dtype: &str, shape: &[usize], bytes: Vec<u8>| {
        if header.len() > 1 {
            header.push(',');
        }
        let start = data.len();
        data.extend(bytes);
        header.push_str(&format!(
            "\"{name}\": {{\"dtype\": \"{dtype}\", \"shape\": {shape:?}, \"data_offsets\": [{start}, {}]}}",
            data.len()
        ));
    };
    let matrices = [
        ("model.embed_tokens", 2),
        ("model.layers.0.self_attn.q_proj", 8),
        ("model.layers.0.self_attn.k_proj", 4),
        ("model.layers.0.self_attn.v_proj", 4),
        ("model.layers.0.self_attn.o_proj", 8),
        ("model.layers.0.mlp.gate_proj", 8),
        ("model.layers.0.mlp.up_proj", 8),
        ("model.layers.0.mlp.down_proj", 8),
    ];
    for (name, rows) in matrices {
        let words: Vec<u8> = (0..rows)
            .flat_map(|row| (0x7654_3210_u32 + row as u32).to_le_bytes())
            .collect();
        put(&format!("{name}.weight"), "U32", &[rows, 1], words);
        put(
            &format!("{name}.scales"),
            "BF16",
            &[rows, 1],
            [0x80, 0x3F].repeat(rows),
        );
        put(
            &format!("{name}.biases"),
            "BF16",
            &[rows, 1],
            [0x00, 0xC0].repeat(rows),
        );
    }
    let vectors = [
        ("model.norm.weight", 8),
        ("model.layers.0.input_layernorm.weight", 8),
        ("model.layers.0.post_attention_layernorm.weight", 8),
        ("model.layers.0.self_attn.q_proj.bias", 8),
        ("model.layers.0.self_attn.k_proj.bias", 4),
        ("model.layers.0.self_attn.v_proj.bias", 4),
    ];
    for (name, len) in vectors {
        put(name, "BF16", &[len], [0x80, 0x3F].repeat(len));
    }
    header.push('}');
    container(&header, &data)
}

#[test]
fn mlx_model_loads_and_fits() {
    let bytes = mlx_file();
    let entries = entries(&bytes);
    let file = SafeTensorFile::read(bytes, &entries).unwrap();
    let config = QwenRuntimeConfig::read(CONFIG).unwrap();
    assert!(QwenRuntimeModel::mlx_columns_fit(&config, &file));
    let model = QwenRuntimeModel::load_mlx(&config, &file, QwenProjectionBackend::Cpu).unwrap();
    assert_eq!(model.layers.len(), 1);
    let norm: Vec<f32> = model.norm_weight.iter().map(|bits| f32::from_bits(*bits)).collect();
    assert_eq!(norm, vec![1.0; 8]);
    let tensor = &model.embed_tokens;
    assert_eq!(tensor.scale_format, ScaleFormat::Brain);
    assert_eq!(tensor.group_size, 64);
    assert!(tensor.is_backed());
    assert_eq!(tensor.code(0, 0), 0);
    assert_eq!(tensor.code(1, 0), 1);
    assert_eq!(tensor.code(0, 7), 7);
    assert_eq!(f32::from_bits(bf16_to_f32(tensor.scales[0])), 1.0);
    assert_eq!(f32::from_bits(tensor.bias(tensor.group(1, 3))), -2.0);
}

#[test]
fn mlx_tensors_are_checked() {
    let bytes = container(
        r#"{"w.weight": {"dtype": "U32", "shape": [1, 1], "data_offsets": [0, 4]},
            "w.scales": {"dtype": "BF16", "shape": [1, 2], "data_offsets": [0, 4]},
            "f": {"dtype": "F32", "shape": [1], "data_offsets": [0, 4]},
            "u": {"dtype": "U32", "shape": [1], "data_offsets": [0, 3]},
            "o": {"dtype": "U32", "shape": [1], "data_offsets": [0, 40]}}"#,
        &[1, 2, 3, 4],
    );
    let entries = entries(&bytes);
    let file = SafeTensorFile::read(bytes, &entries).unwrap();
    assert_eq!(file.load_u32("w.weight").unwrap(), vec![0x0403_0201]);
    assert_eq!(
        file.load_quant("w").unwrap_err().message(),
        "configuration error: w.scales groups 2 does not match expected 1"
    );
    assert_eq!(
        file.load_quant("v").unwrap_err().message(),
        "configuration error: missing tensor v.weight"
    );
    assert_eq!(
        file.load_u32("f").unwrap_err().message(),
        "configuration error: f must have dtype U32"
    );
    assert_eq!(
        file.load_bf16("f").unwrap_err().message(),
        "configuration error: f must have dtype BF16"
    );
    assert_eq!(
        file.load_u32("u").unwrap_err().message(),
        "configuration error: u byte length is not divisible by 4"
    );
    assert_eq!(
        file.load_u32("o").unwrap_err().message(),
        "configuration error: tensor o data offsets are out of bounds"
    );
    assert_eq!(file.info("f").unwrap().shape, vec![1]);
}

const TOKENIZER: &str = r#"{
    "version": "1.0", "truncation": null, "padding": null, "added_tokens": [],
    "normalizer": null, "pre_tokenizer": {"type": "Whitespace"}, "post_processor": null,
    "decoder": null,
    "model": {
        "type": "WordLevel",
        "vocab": {"<unk>": 0, "user": 1, "ciao": 2, "assistant": 3},
        "unk_token": "<unk>"
    }
}"#;

#[test]
fn prompt_is_framed_as_a_turn() {
    assert_eq!(
        format_qwen_chat_prompt("ciao"),
        "<|im_start|>user\nciao<|im_end|>\n<|im_start|>assistant\n"
    );
}

#[test]
fn tokenizer_encodes_the_framed_prompt() {
    let tokenizer = load_tokenizer(TOKENIZER.as_bytes()).unwrap();
    let prompt = encode_prompt(&tokenizer, "ciao", 512).unwrap();
    assert_eq!(prompt.total, 12);
    assert_eq!(prompt.used, vec![0, 0, 0, 1, 2, 0, 0, 0, 0, 0, 0, 3]);
    let prompt = encode_prompt(&tokenizer, "ciao", 2).unwrap();
    assert_eq!(prompt.total, 12);
    assert_eq!(prompt.used, vec![0, 3]);
}

#[test]
fn tokenizer_decodes_what_was_generated() {
    let tokenizer = load_tokenizer(TOKENIZER.as_bytes()).unwrap();
    assert_eq!(decode_tokens(&tokenizer, &vec![1, 2, 3]), "user ciao assistant");
}

#[test]
fn broken_tokenizer_is_refused() {
    let error = load_tokenizer(b"{").err().unwrap().message();
    assert!(error.starts_with("configuration error: failed to load tokenizer.json: "));
    assert!(error.len() > "configuration error: failed to load tokenizer.json: ".len());
}

const UNSUPPORTED: &str =
    "configuration error: failed to load tokenizer.json: a part of the tokenizer is not supported";

/// A tokenizer file with some members of its own.
fn tokenizer_json(parts: &str, model: &str) -> String {
    format!(r#"{{"version": "1.0", {parts} "model": {model}}}"#)
}

const WORDS: &str = r#"{"type": "WordLevel", "vocab": {"<unk>": 0, "user": 1}, "unk_token": "<unk>"}"#;

fn refused(parts: &str) -> bool {
    match load_tokenizer(tokenizer_json(parts, WORDS).as_bytes()) {
        Ok(_) => false,
        Err(error) => error.message() == UNSUPPORTED,
    }
}

fn loads(parts: &str) -> bool {
    load_tokenizer(tokenizer_json(parts, WORDS).as_bytes()).is_ok()
}

#[test]
fn tokenizer_parts_without_an_outcome_are_refused() {
    assert!(loads(""));
    let normalizers = [
        r#""normalizer": {"type": "Precompiled", "precompiled_charsmap": ""},"#,
        r#""normalizer": {"type": "Sequence", "normalizers": [{"type": "NFC"}, {"type": "Precompiled"}]},"#,
        r#""normalizer": {"type": "Sequence", "normalizers": {}},"#,
        r#""normalizer": {"type": "Replace", "pattern": {"String": ""}, "content": "x"},"#,
        r#""normalizer": {"type": "Replace", "pattern": {"Regex": "x*"}, "content": "x"},"#,
        r#""normalizer": {"type": "Replace", "pattern": {"Regex": "x{0,2}"}, "content": "x"},"#,
        r#""normalizer": {"type": "Replace", "pattern": {"Regex": "\\Kx"}, "content": "x"},"#,
        r#""normalizer": {"type": "Prepend", "prepend": ""},"#,
        r#""normalizer": {"type": "BertNormalizer", "precompiled_charsmap": ""},"#,
        r#""normalizer": {},"#,
        r#""normalizer": 3,"#,
    ];
    for normalizer in normalizers {
        assert!(refused(normalizer), "{normalizer}");
    }
    let normalizers = [
        r#""normalizer": {"type": "Sequence", "normalizers": [{"type": "NFC"}, {"type": "Lowercase"}]},"#,
        r#""normalizer": {"type": "Sequence", "normalizers": [{"type": "Prepend", "prepend": "_"}, {"type": "Replace", "pattern": {"String": " "}, "content": "_"}, {"type": "Strip", "strip_left": true, "strip_right": true}]},"#,
        r#""normalizer": {"type": "Replace", "pattern": {"Regex": " {2,}"}, "content": " "},"#,
        r#""normalizer": {"type": "Replace", "pattern": {"Regex": "[^a-z]+"}, "content": ""},"#,
        r#""normalizer": {"type": "BertNormalizer", "clean_text": true, "handle_chinese_chars": true, "strip_accents": null, "lowercase": true},"#,
    ];
    for normalizer in normalizers {
        assert!(loads(normalizer), "{normalizer}");
    }
    let cuts = [
        r#""pre_tokenizer": {"type": "FixedLength", "length": 0},"#,
        r#""pre_tokenizer": {"type": "Sequence", "pretokenizers": [{"type": "FixedLength", "length": 0}]},"#,
    ];
    for cut in cuts {
        assert!(refused(cut), "{cut}");
    }
    let decoders = [
        r#""decoder": {"type": "Strip", "content": " ", "start": 1, "stop": 1},"#,
        r#""decoder": {"type": "Sequence", "decoders": [{"type": "Strip", "content": " ", "start": 0, "stop": 2}]},"#,
        r#""decoder": {"type": "BPEDecoder", "suffix": "</w>"},"#,
        r#""decoder": {"type": "Replace", "pattern": {"Regex": "(?<=\\Kab)c|b"}, "content": ""},"#,
    ];
    for decoder in decoders {
        assert!(refused(decoder), "{decoder}");
    }
    let decoders = [
        r#""decoder": {"type": "Strip", "content": " ", "start": 1, "stop": 0},"#,
        r#""decoder": {"type": "Replace", "pattern": {"Regex": "b|c"}, "content": ""},"#,
    ];
    for decoder in decoders {
        assert!(loads(decoder), "{decoder}");
    }
}

#[test]
fn tokenizer_splits_by_plain_patterns() {
    let split = |pattern: &str| {
        format!(
            r#""pre_tokenizer": {{"type": "Split", "pattern": {{"Regex": "{pattern}"}}, "behavior": "Isolated", "invert": false}},"#
        )
    };
    let plain = [
        r"(?i:'s|'t|'re|'ve|'m|'ll|'d)|[^\\r\\n\\p{L}\\p{N}]?\\p{L}+|\\p{N}| ?[^\\s\\p{L}\\p{N}]+[\\r\\n]*|\\s*[\\r\\n]+|\\s+(?!\\S)|\\s+",
        r"\\p{N}{1,3}|[a-z]++",
        r"\\d{2}(?:a|b)",
    ];
    for pattern in plain {
        assert!(loads(&split(pattern)), "{pattern}");
    }
    let refusals = [
        r"(?<=\\Kis)t|s",
        r"(?<=\\Ka)",
        r"(?<=a)b",
        r"(a)\\1",
        r"\\Ga",
        r"(?>a)",
        r"(?x) a",
        r"a{10}",
        r"a{1}a{1}a{1}a{1}a{1}a{1}a{1}a{1}a{1}",
        r"a\\",
    ];
    for pattern in refusals {
        assert!(refused(&split(pattern)), "{pattern}");
    }
    let tokenizer =
        load_tokenizer(tokenizer_json(&split(plain[0]), WORDS).as_bytes()).unwrap();
    let prompt = encode_prompt(&tokenizer, "user", 512).unwrap();
    assert_eq!(prompt.used.iter().filter(|id| **id == 1).count(), 2);
}

#[test]
fn tokenizer_templates_are_checked() {
    let template = |single: &str, tokens: &str| {
        format!(
            r#""post_processor": {{"type": "TemplateProcessing", "single": {single}, "pair": [], "special_tokens": {tokens}}},"#
        )
    };
    let first = r#"{"Sequence": {"id": "A", "type_id": 0}}"#;
    let known = r#"{"[C]": {"id": "[C]", "ids": [1], "tokens": ["user"]}}"#;
    let special = r#"{"SpecialToken": {"id": "[C]", "type_id": 0}}"#;
    assert!(loads(&template(&format!("[{special}, {first}]"), known)));
    assert!(refused(&template(&format!("[{special}, {first}]"), "{}")));
    let second = r#"{"Sequence": {"id": "B", "type_id": 0}}"#;
    assert!(refused(&template(&format!("[{first}, {second}]"), known)));
    let listed = r#"{"[C]": ["[C]", [1, 2], ["a", "b"]]}"#;
    assert!(refused(&template(&format!("[{special}, {first}]"), listed)));
    let uneven = r#"{"[C]": {"id": "[C]", "ids": [1, 1], "tokens": ["user"]}}"#;
    assert!(refused(&template(&format!("[{special}, {first}]"), uneven)));
    let step = format!(
        r#"{{"type": "TemplateProcessing", "single": [{first}], "pair": [], "special_tokens": {known}}}"#
    );
    let sequence =
        |steps: &str| format!(r#""post_processor": {{"type": "Sequence", "processors": [{steps}]}},"#);
    assert!(loads(&sequence(&step)));
    assert!(refused(&sequence(&format!("{step}, {step}"))));
}

#[test]
fn tokenizer_lengths_are_checked() {
    let cut = |length: u32, stride: u32| {
        format!(
            r#""truncation": {{"direction": "Right", "max_length": {length}, "strategy": "LongestFirst", "stride": {stride}}},"#
        )
    };
    assert!(loads(&cut(3, 2)));
    assert!(refused(&cut(2, 2)));
    let ends = r#""post_processor": {"type": "BertProcessing", "sep": ["user", 1], "cls": ["user", 1]},"#;
    assert!(loads(&format!("{} {ends}", cut(5, 2))));
    assert!(refused(&format!("{} {ends}", cut(4, 2))));
    let template = r#""post_processor": {"type": "TemplateProcessing", "single": [{"SpecialToken": {"id": "[C]", "type_id": 0}}, {"Sequence": {"id": "A", "type_id": 0}}], "pair": [], "special_tokens": {"[C]": {"id": "[C]", "ids": [1, 1], "tokens": ["user", "user"]}}},"#;
    assert!(loads(&format!("{} {template}", cut(4, 1))));
    assert!(refused(&format!("{} {template}", cut(3, 1))));
    let pad = |strategy: &str| {
        format!(
            r#""padding": {{"strategy": {strategy}, "direction": "Right", "pad_to_multiple_of": null, "pad_id": 0, "pad_type_id": 0, "pad_token": "<unk>"}},"#
        )
    };
    assert!(loads(&pad("\"BatchLongest\"")));
    assert!(loads(&pad(r#"{"Fixed": 7}"#)));
    assert!(refused(&pad(r#"{"Fixed": 4294967296}"#)));
}

fn added(content: &str, lstrip: bool, rstrip: bool, normalized: bool) -> String {
    format!(
        r#"{{"id": 0, "content": "{content}", "single_word": false, "lstrip": {lstrip}, "rstrip": {rstrip}, "normalized": {normalized}, "special": true}}"#
    )
}

#[test]
fn tokenizer_tokens_are_checked() {
    let tokens = |tokens: &[String]| format!(r#""added_tokens": [{}],"#, tokens.join(", "));
    assert!(loads(&tokens(&[added("<unk>", true, false, false)])));
    assert!(loads(&tokens(&[added("<unk>", false, true, false)])));
    assert!(loads(&tokens(&[added("<unk>", true, true, false)])));
    assert!(loads(&tokens(&[
        added("<a>", true, false, false),
        added("<b>", false, true, false)
    ])));
    assert!(refused(&tokens(&[
        added("  ", true, false, false),
        added("<b>", false, true, false)
    ])));
    assert!(refused(&tokens(&[
        added("<a>", true, false, true),
        added("<b>", false, true, false)
    ])));
    let strip = r#""normalizer": {"type": "Strip", "strip_left": true, "strip_right": true},"#;
    let blank = tokens(&[added(" ", false, false, true)]);
    assert!(loads(&blank));
    assert!(refused(&format!("{strip} {blank}")));
    assert!(loads(&format!("{strip} {}", tokens(&[added(" ", false, false, false)]))));
    let lower = r#""normalizer": {"type": "Lowercase"},"#;
    assert!(loads(&format!("{lower} {blank}")));
    let removing =
        r#""normalizer": {"type": "Replace", "pattern": {"String": " "}, "content": ""},"#;
    assert!(refused(&format!("{removing} {blank}")));
}

#[test]
fn tokenizer_names_stand_once() {
    assert!(refused(r#""normalizer": null, "normalizer": null,"#));
    assert!(refused(
        r#""decoder": {"type": "Fuse", "type": "Fuse"},"#
    ));
    assert!(loads(r#""decoder": {"type": "Fuse"},"#));
    let twice = tokenizer_json(
        "",
        r#"{"type": "WordLevel", "vocab": {"<unk>": 0, "a": 1, "a": 2}, "unk_token": "<unk>"}"#,
    );
    assert_eq!(
        load_tokenizer(twice.as_bytes()).err().unwrap().message(),
        UNSUPPORTED
    );
}

#[test]
fn tokenizer_models_are_checked() {
    let said = |model: &str| match load_tokenizer(tokenizer_json("", model).as_bytes()) {
        Ok(_) => String::new(),
        Err(error) => error.message(),
    };
    let merged = |kind: &str, merges: &str| {
        format!(r#"{{{kind} "vocab": {{"a": 0, "b": 1, "ab": 2}}, "merges": {merges}}}"#)
    };
    for kind in [r#""type": "BPE","#, ""] {
        assert_eq!(said(&merged(kind, r#"["a b"]"#)), "");
        assert_eq!(said(&merged(kind, r#"[["a", "b"]]"#)), "");
        assert_eq!(said(&merged(kind, r#"["ab a"]"#)), UNSUPPORTED);
        assert_eq!(said(&merged(kind, r#"[["ab", "a"]]"#)), UNSUPPORTED);
    }
    let scored = |token: &str| {
        format!(
            r#"{{"type": "Unigram", "unk_id": 0, "vocab": [["<unk>", 0.0], ["{token}", -1.5]]}}"#
        )
    };
    assert_eq!(said(&scored("user")), "");
    assert_eq!(said(&scored(&"a".repeat(256))), "");
    assert_eq!(said(&scored(&"a".repeat(257))), UNSUPPORTED);
    assert_eq!(said(r#"{"type": 3, "vocab": {}}"#), UNSUPPORTED);
    let tokenizer =
        load_tokenizer(tokenizer_json("", &scored("user")).as_bytes()).unwrap();
    let prompt = encode_prompt(&tokenizer, "user", 512).unwrap();
    assert_eq!(prompt.used.iter().filter(|id| **id == 1).count(), 2);
}

#[test]
fn chat_tokenizer_knows_its_marks() {
    let mark = |id: u32, content: &str| {
        format!(
            r#"{{"id": {id}, "content": "{content}", "single_word": false, "lstrip": false, "rstrip": false, "normalized": false, "special": true}}"#
        )
    };
    let json = format!(
        r#"{{
            "version": "1.0", "truncation": null, "padding": null,
            "added_tokens": [{}, {}],
            "normalizer": {{"type": "NFC"}},
            "pre_tokenizer": {{"type": "Sequence", "pretokenizers": [
                {{"type": "Split", "pattern": {{"Regex": "[a-z]+|\\s"}}, "behavior": "Isolated", "invert": false}},
                {{"type": "ByteLevel", "add_prefix_space": false, "trim_offsets": false, "use_regex": false}}
            ]}},
            "post_processor": {{"type": "ByteLevel", "add_prefix_space": false, "trim_offsets": false, "use_regex": false}},
            "decoder": {{"type": "ByteLevel", "add_prefix_space": false, "trim_offsets": false, "use_regex": false}},
            "model": {{
                "type": "BPE", "dropout": null, "unk_token": null,
                "continuing_subword_prefix": "", "end_of_word_suffix": "",
                "fuse_unk": false, "byte_fallback": false,
                "vocab": {{"h": 0, "i": 1, "hi": 2, "\u010a": 3}}, "merges": ["h i"]
            }}
        }}"#,
        mark(4, "<|im_start|>"),
        mark(5, "<|im_end|>"),
    );
    let tokenizer = load_tokenizer(json.as_bytes()).unwrap();
    let prompt = encode_prompt(&tokenizer, "hi", 512).unwrap();
    assert_eq!(prompt.used, vec![4, 3, 2, 5, 3, 4, 1, 3]);
    assert_eq!(decode_tokens(&tokenizer, &vec![4, 2, 3, 2, 5]), "hi\nhi");
}

#[test]
fn tokenizer_merges_what_it_may() {
    let json = tokenizer_json(
        "",
        r#"{"type": "BPE", "vocab": {"a": 0, "b": 1, "ab": 2}, "merges": [["a", "b"]]}"#,
    );
    let tokenizer = load_tokenizer(json.as_bytes()).unwrap();
    let prompt = encode_prompt(&tokenizer, "ab", 512).unwrap();
    assert!(prompt.used.contains(&2));
    assert_eq!(decode_tokens(&tokenizer, &vec![2, 0]), "ab a");
}

#[test]
fn directories_have_to_match() {
    let bytes = container(
        r#"{"t": {"dtype": "U32", "shape": [1], "data_offsets": [0, 4]}}"#,
        &[1, 2, 3, 4],
    );
    let mut given = entries(&bytes);
    let file = SafeTensorFile::read(bytes.clone(), &given).unwrap();
    assert_eq!(file.load_u32("t").unwrap(), vec![0x0403_0201]);
    given[0].name = "u".to_string();
    let said = |entries: &Vec<HeaderEntry>| match SafeTensorFile::read(bytes.clone(), entries) {
        Ok(_) => String::new(),
        Err(error) => error.message(),
    };
    let mismatch = "configuration error: safetensors entries do not match the header";
    assert_eq!(said(&given), mismatch);
    assert_eq!(said(&Vec::new()), mismatch);
}

#[test]
fn entries_have_to_be_what_the_header_says() {
    let mismatch = "configuration error: safetensors entries do not match the header";
    let said = |header: &str, info: Result<TensorInfo, String>| {
        let entries = vec![HeaderEntry { name: "t".to_string(), info }];
        match SafeTensorFile::read(container(header, &[0; 8]), &entries) {
            Ok(_) => String::new(),
            Err(error) => error.message(),
        }
    };
    let info = |dtype: &str, shape: &[usize], data_offsets: [usize; 2]| {
        Ok(TensorInfo { dtype: dtype.to_string(), shape: shape.to_vec(), data_offsets })
    };
    let named = r#"{"t": {"dtype": "U32", "shape": [1, 2], "data_offsets": [0, 8]}}"#;
    assert_eq!(said(named, info("U32", &[1, 2], [0, 8])), "");
    assert_eq!(said(named, info("BF16", &[1, 2], [0, 8])), mismatch);
    assert_eq!(said(named, info("U32", &[2, 1], [0, 8])), mismatch);
    assert_eq!(said(named, info("U32", &[1], [0, 8])), mismatch);
    assert_eq!(said(named, info("U32", &[1, 2], [4, 8])), mismatch);
    assert_eq!(said(named, info("U32", &[1, 2], [0, 4])), mismatch);
    assert_eq!(said(named, Err("missing field `dtype`".to_string())), mismatch);
    let listed = r#"{"t": ["U32", [1, 2], [0, 8]]}"#;
    assert_eq!(said(listed, info("U32", &[1, 2], [0, 8])), "");
    assert_eq!(said(listed, info("U32", &[1, 2], [0, 7])), mismatch);
    for undescribed in [
        r#"{"t": {"dtype": "U32", "shape": [1, 2]}}"#,
        r#"{"t": {"dtype": 4, "shape": [1, 2], "data_offsets": [0, 8]}}"#,
        r#"{"t": {"dtype": "U32", "shape": [1, -2], "data_offsets": [0, 8]}}"#,
        r#"{"t": {"dtype": "U32", "shape": [1, 2.0], "data_offsets": [0, 8]}}"#,
        r#"{"t": {"dtype": "U32", "shape": [1, 2], "data_offsets": [0, 8, 9]}}"#,
        r#"{"t": ["U32", [1, 2], [0, 8], 0]}"#,
        r#"{"t": null}"#,
    ] {
        assert_eq!(said(undescribed, info("U32", &[1, 2], [0, 8])), mismatch);
        assert_eq!(
            said(undescribed, Err("no tensor".to_string())),
            "configuration error: invalid safetensors tensor metadata for t: no tensor"
        );
    }
}

#[test]
fn only_loaded_matrices_have_to_be_countable() {
    let read = |name: &str, dtype: &str| {
        let bytes = container(
            &format!(
                r#"{{"{name}": {{"dtype": "{dtype}", "shape": [1, {}], "data_offsets": [0, 0]}}}}"#,
                usize::MAX
            ),
            &[],
        );
        let entries = entries(&bytes);
        SafeTensorFile::read(bytes, &entries).unwrap()
    };
    let config = QwenRuntimeConfig::read(CONFIG).unwrap();
    let fits = |file: &SafeTensorFile| QwenRuntimeModel::mlx_columns_fit(&config, file);
    let other = read("other.weight", "U32");
    assert!(!other.columns_fit("other"));
    assert!(other.columns_fit("model.embed_tokens"));
    assert!(fits(&other));
    assert!(QwenRuntimeModel::load_mlx(&config, &other, QwenProjectionBackend::Cpu).is_err());
    assert!(!fits(&read("model.embed_tokens.weight", "U32")));
    assert!(fits(&read("model.embed_tokens.weight", "F32")));
    assert!(!fits(&read("model.layers.0.mlp.down_proj.weight", "U32")));
    assert!(fits(&read("model.layers.1.mlp.down_proj.weight", "U32")));
}

#[test]
fn prompt_is_clipped_at_its_start() {
    let clipped = clip_prompt(&vec![5, 6, 7], 2).unwrap();
    assert_eq!(clipped.total, 3);
    assert_eq!(clipped.used, vec![6, 7]);
    assert_eq!(clip_prompt(&vec![5], 2).unwrap().used, vec![5]);
    assert_eq!(
        clip_prompt(&Vec::new(), 2).unwrap_err().message(),
        "configuration error: prompt encoded to zero tokens"
    );
}

#[test]
fn undecoded_tokens_stand_for_themselves() {
    assert_eq!(generated_text(None, &vec![1, 20]), "<1><20>");
    assert_eq!(generated_text(Some("x".to_string()), &vec![1]), "x");
    assert_eq!(generated_text(None, &Vec::new()), "");
}
