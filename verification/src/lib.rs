//! The logic of TinyEngine: model files, quantised tensors, execution plans,
//! generation and reporting, each with the contract it is proved against.

pub mod api;
pub mod backend;
pub mod commands;
pub mod compare;
pub mod error;
pub mod generation;
pub mod gguf;
pub mod gguf_file;
pub mod gguf_load;
pub mod gguf_write;
pub mod hf_config;
pub mod json;
pub mod kernels;
pub mod kv_cache;
pub mod llama;
pub mod manifest;
pub mod meaning;
pub mod metal;
pub mod model;
pub mod name_map;
pub mod paths;
pub mod pattern;
pub mod phase;
pub mod plan;
pub mod profile;
pub mod projection;
pub mod quant;
pub mod safetensors;
pub mod sampling;
pub mod scan;
pub mod stats;
pub mod text;
pub mod timings;
pub mod tma;
pub mod tokenizer_file;
pub mod tokens;
pub mod types;
