# TinyEngine

A small local inference engine for Qwen models, with its logic verified in
Verus.

- `src/` is the library: model files (GGUF, safetensors, package metadata),
  quantised tensors, execution plans for the GPU, caches, sampling, generation,
  reports, and the rules of the command line and the local HTTP interface. Every
  function states what it returns, and Verus proves it. Floats are carried as bit
  patterns.
- `app/` is the program: arguments, files, processes, HTTP, Metal, and the
  floating-point arithmetic.
- `tests/` runs the library on concrete values.

## What is taken on trust

Each call out of the library stands behind a small function or declaration that
states what is relied on, with a comment that names the call.

- `serde_json` (`src/json.rs`): `from_str` and `from_slice`, whose results are
  named and not described; `Value::get`, `as_object`, `as_array`, `as_str`,
  `as_u64`, `as_f64`, `as_bool`, `is_null` and `is_object`, which are described
  in full over the value that a text holds.
- `tokenizers` (`src/tokens.rs`): `Tokenizer::from_bytes`, `encode` and
  `decode`. What they may give is a named set; which member comes is left open.
  They are called only on files that `src/tokenizer_file.rs` lets through,
  whose regular expressions are those of `src/pattern.rs`: each of their parts
  has an outcome for every text and for all ids. Others are refused with an
  error.
- The standard library: `String::push` (`src/text.rs`) and `String::from_utf8`
  (`src/gguf.rs`).
