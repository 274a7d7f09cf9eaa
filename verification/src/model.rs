//! A Qwen model in memory: its configuration, its tensors, and how they are
//! loaded and checked.

use crate::error::{config_error, config_outcome, TinyAgentError};
use crate::gguf::{GgufImage, GgufValue};
use crate::gguf_file::GgufFile;
use crate::hf_config::{FloatBits, QwenRuntimeConfig};
use crate::quant::{checked, QuantMatrix, QuantTensor};
use crate::safetensors::SafeTensorFile;
use crate::text::{cat2, cat5, decimal, decimal_usize, views};
use vstd::prelude::*;
use vstd::string::StringExecFns;

verus! {

/// Where the projections are computed.
#[derive(Debug, Clone, Copy, PartialEq, Eq, Structural)]
pub enum QwenProjectionBackend {
    Cpu,
    Metal,
}

/// One layer of a model. Vectors hold bit patterns of 32-bit floats.
#[derive(Debug)]
pub struct QwenLayer {
    pub input_layernorm_weight: Vec<u32>,
    pub post_attention_layernorm_weight: Vec<u32>,
    pub q_proj: QuantTensor,
    pub k_proj: QuantTensor,
    pub v_proj: QuantTensor,
    pub o_proj: QuantTensor,
    pub q_bias: Vec<u32>,
    pub k_bias: Vec<u32>,
    pub v_bias: Vec<u32>,
    pub gate_proj: QuantTensor,
    pub up_proj: QuantTensor,
    pub down_proj: QuantTensor,
}

/// The mathematical value of a `QwenLayer`.
#[verifier::ext_equal]
pub struct LayerFacts {
    pub input_norm: Seq<u32>,
    pub post_norm: Seq<u32>,
    pub q_proj: QuantMatrix,
    pub k_proj: QuantMatrix,
    pub v_proj: QuantMatrix,
    pub o_proj: QuantMatrix,
    pub q_bias: Seq<u32>,
    pub k_bias: Seq<u32>,
    pub v_bias: Seq<u32>,
    pub gate_proj: QuantMatrix,
    pub up_proj: QuantMatrix,
    pub down_proj: QuantMatrix,
}

impl View for QwenLayer {
    type V = LayerFacts;

    open spec fn view(&self) -> LayerFacts {
        LayerFacts {
            input_norm: self.input_layernorm_weight@,
            post_norm: self.post_attention_layernorm_weight@,
            q_proj: self.q_proj@,
            k_proj: self.k_proj@,
            v_proj: self.v_proj@,
            o_proj: self.o_proj@,
            q_bias: self.q_bias@,
            k_bias: self.k_bias@,
            v_bias: self.v_bias@,
            gate_proj: self.gate_proj@,
            up_proj: self.up_proj@,
            down_proj: self.down_proj@,
        }
    }
}

/// What is said of a vector of the wrong length.
pub open spec fn len_refusal(name: Seq<char>, len: nat, expected: nat) -> Option<Seq<char>> {
    if len == expected {
        None
    } else {
        Some(
            name + " length "@ + decimal(len) + " does not match expected "@ + decimal(expected),
        )
    }
}

/// What is said of a matrix of the wrong shape.
pub open spec fn shape_refusal(
    name: Seq<char>,
    matrix: QuantMatrix,
    out_dim: nat,
    in_dim: nat,
) -> Option<Seq<char>> {
    if matrix.out_dim == out_dim && matrix.in_dim == in_dim {
        None
    } else {
        Some(
            name + " shape [out="@ + decimal(matrix.out_dim as nat) + ", in="@ + decimal(
                matrix.in_dim as nat,
            ) + "] does not match expected ["@ + decimal(out_dim) + ", "@ + decimal(in_dim)
                + "]"@,
        )
    }
}

/// The first refusal of two.
pub open spec fn first(left: Option<Seq<char>>, right: Option<Seq<char>>) -> Option<Seq<char>> {
    if left is Some {
        left
    } else {
        right
    }
}

pub fn ensure_len(name: &str, len: usize, expected: usize) -> (result: Result<(), TinyAgentError>)
    ensures
        config_outcome(result, checked(len_refusal(name@, len as nat, expected as nat))),
{
    if len == expected {
        Ok(())
    } else {
        Err(
            TinyAgentError::Configuration(
                cat5(
                    name,
                    " length ",
                    decimal_usize(len).as_str(),
                    " does not match expected ",
                    decimal_usize(expected).as_str(),
                ),
            ),
        )
    }
}

pub fn ensure_quant_shape(
    name: &str,
    tensor: &QuantTensor,
    expected_out: usize,
    expected_in: usize,
) -> (result: Result<(), TinyAgentError>)
    ensures
        config_outcome(
            result,
            checked(shape_refusal(name@, tensor@, expected_out as nat, expected_in as nat)),
        ),
{
    if tensor.out_dim == expected_out && tensor.in_dim == expected_in {
        Ok(())
    } else {
        let mut text = cat5(
            name,
            " shape [out=",
            decimal_usize(tensor.out_dim).as_str(),
            ", in=",
            decimal_usize(tensor.in_dim).as_str(),
        );
        text.append("] does not match expected [");
        text.append(decimal_usize(expected_out).as_str());
        text.append(", ");
        text.append(decimal_usize(expected_in).as_str());
        text.append("]");
        Err(TinyAgentError::Configuration(text))
    }
}

/// The width of a key or of a value.
pub open spec fn kv_dim(config: QwenRuntimeConfig) -> nat {
    (config.num_key_value_heads * config.head_dim) as nat
}

/// What is wrong with the shapes of a layer, in the order in which they are
/// looked at.
pub open spec fn layer_refusal(layer: LayerFacts, config: QwenRuntimeConfig, index: nat) -> Option<
    Seq<char>,
> {
    let prefix = "model.layers."@ + decimal(index);
    let hidden = config.hidden_size as nat;
    let wide = config.intermediate_size as nat;
    let kv = kv_dim(config);
    first(
        len_refusal(prefix + ".input_layernorm.weight"@, layer.input_norm.len(), hidden),
        first(
            len_refusal(
                prefix + ".post_attention_layernorm.weight"@,
                layer.post_norm.len(),
                hidden,
            ),
            first(
                shape_refusal(prefix + ".self_attn.q_proj"@, layer.q_proj, hidden, hidden),
                first(
                    shape_refusal(prefix + ".self_attn.k_proj"@, layer.k_proj, kv, hidden),
                    first(
                        shape_refusal(prefix + ".self_attn.v_proj"@, layer.v_proj, kv, hidden),
                        first(
                            shape_refusal(
                                prefix + ".self_attn.o_proj"@,
                                layer.o_proj,
                                hidden,
                                hidden,
                            ),
                            first(
                                len_refusal(
                                    prefix + ".self_attn.q_proj.bias"@,
                                    layer.q_bias.len(),
                                    hidden,
                                ),
                                first(
                                    len_refusal(
                                        prefix + ".self_attn.k_proj.bias"@,
                                        layer.k_bias.len(),
                                        kv,
                                    ),
                                    first(
                                        len_refusal(
                                            prefix + ".self_attn.v_proj.bias"@,
                                            layer.v_bias.len(),
                                            kv,
                                        ),
                                        first(
                                            shape_refusal(
                                                prefix + ".mlp.gate_proj"@,
                                                layer.gate_proj,
                                                wide,
                                                hidden,
                                            ),
                                            first(
                                                shape_refusal(
                                                    prefix + ".mlp.up_proj"@,
                                                    layer.up_proj,
                                                    wide,
                                                    hidden,
                                                ),
                                                shape_refusal(
                                                    prefix + ".mlp.down_proj"@,
                                                    layer.down_proj,
                                                    hidden,
                                                    wide,
                                                ),
                                            ),
                                        ),
                                    ),
                                ),
                            ),
                        ),
                    ),
                ),
            ),
        ),
    )
}

/// All shapes of a layer are what the configuration asks for.
pub open spec fn layer_fits(layer: LayerFacts, config: QwenRuntimeConfig) -> bool {
    let hidden = config.hidden_size;
    let wide = config.intermediate_size;
    let kv = kv_dim(config);
    &&& layer.input_norm.len() == hidden
    &&& layer.post_norm.len() == hidden
    &&& layer.q_proj.out_dim == hidden && layer.q_proj.in_dim == hidden
    &&& layer.k_proj.out_dim == kv && layer.k_proj.in_dim == hidden
    &&& layer.v_proj.out_dim == kv && layer.v_proj.in_dim == hidden
    &&& layer.o_proj.out_dim == hidden && layer.o_proj.in_dim == hidden
    &&& layer.q_bias.len() == hidden
    &&& layer.k_bias.len() == kv
    &&& layer.v_bias.len() == kv
    &&& layer.gate_proj.out_dim == wide && layer.gate_proj.in_dim == hidden
    &&& layer.up_proj.out_dim == wide && layer.up_proj.in_dim == hidden
    &&& layer.down_proj.out_dim == hidden && layer.down_proj.in_dim == wide
}

impl QwenLayer {
    pub fn validate_shapes(&self, config: &QwenRuntimeConfig, index: usize) -> (result: Result<
        (),
        TinyAgentError,
    >)
        requires
            kv_dim(*config) <= usize::MAX,
        ensures
            config_outcome(result, checked(layer_refusal(self@, *config, index as nat))),
            result is Ok <==> layer_fits(self@, *config),
    {
        let kv: usize = config.num_key_value_heads * config.head_dim;
        let hidden: usize = config.hidden_size;
        let wide: usize = config.intermediate_size;
        let prefix = cat2("model.layers.", decimal_usize(index).as_str());
        if let Err(error) = ensure_len(
            cat2(prefix.as_str(), ".input_layernorm.weight").as_str(),
            self.input_layernorm_weight.len(),
            hidden,
        ) {
            return Err(error);
        }
        if let Err(error) = ensure_len(
            cat2(prefix.as_str(), ".post_attention_layernorm.weight").as_str(),
            self.post_attention_layernorm_weight.len(),
            hidden,
        ) {
            return Err(error);
        }
        if let Err(error) = ensure_quant_shape(
            cat2(prefix.as_str(), ".self_attn.q_proj").as_str(),
            &self.q_proj,
            hidden,
            hidden,
        ) {
            return Err(error);
        }
        if let Err(error) = ensure_quant_shape(
            cat2(prefix.as_str(), ".self_attn.k_proj").as_str(),
            &self.k_proj,
            kv,
            hidden,
        ) {
            return Err(error);
        }
        if let Err(error) = ensure_quant_shape(
            cat2(prefix.as_str(), ".self_attn.v_proj").as_str(),
            &self.v_proj,
            kv,
            hidden,
        ) {
            return Err(error);
        }
        if let Err(error) = ensure_quant_shape(
            cat2(prefix.as_str(), ".self_attn.o_proj").as_str(),
            &self.o_proj,
            hidden,
            hidden,
        ) {
            return Err(error);
        }
        if let Err(error) = ensure_len(
            cat2(prefix.as_str(), ".self_attn.q_proj.bias").as_str(),
            self.q_bias.len(),
            hidden,
        ) {
            return Err(error);
        }
        if let Err(error) = ensure_len(
            cat2(prefix.as_str(), ".self_attn.k_proj.bias").as_str(),
            self.k_bias.len(),
            kv,
        ) {
            return Err(error);
        }
        if let Err(error) = ensure_len(
            cat2(prefix.as_str(), ".self_attn.v_proj.bias").as_str(),
            self.v_bias.len(),
            kv,
        ) {
            return Err(error);
        }
        if let Err(error) = ensure_quant_shape(
            cat2(prefix.as_str(), ".mlp.gate_proj").as_str(),
            &self.gate_proj,
            wide,
            hidden,
        ) {
            return Err(error);
        }
        if let Err(error) = ensure_quant_shape(
            cat2(prefix.as_str(), ".mlp.up_proj").as_str(),
            &self.up_proj,
            wide,
            hidden,
        ) {
            return Err(error);
        }
        ensure_quant_shape(
            cat2(prefix.as_str(), ".mlp.down_proj").as_str(),
            &self.down_proj,
            hidden,
            wide,
        )
    }
}

/// A file that tensors can be loaded from.
pub trait Checkpoint {
    /// The file can be read from.
    spec fn ready(&self) -> bool;

    /// A vector of 32-bit floats, as bit patterns.
    spec fn vector(&self, name: Seq<char>) -> Result<Seq<u32>, Seq<char>>;

    /// A matrix of four-bit numbers.
    spec fn matrix(&self, name: Seq<char>) -> Result<QuantMatrix, Seq<char>>;

    /// The columns of a matrix can be counted.
    spec fn countable(&self, name: Seq<char>) -> bool;

    fn load_vector(&self, name: &str) -> (result: Result<Vec<u32>, TinyAgentError>)
        requires
            self.ready(),
        ensures
            config_outcome(result, self.vector(name@)),
    ;

    fn load_matrix(&self, name: &str) -> (result: Result<QuantTensor, TinyAgentError>)
        requires
            self.ready(),
            self.countable(name@),
        ensures
            config_outcome(result, self.matrix(name@)),
    ;
}

impl Checkpoint for GgufFile {
    open spec fn ready(&self) -> bool {
        self.wf()
    }

    open spec fn vector(&self, name: Seq<char>) -> Result<Seq<u32>, Seq<char>> {
        self@.f32_tensor(name)
    }

    open spec fn matrix(&self, name: Seq<char>) -> Result<QuantMatrix, Seq<char>> {
        self@.q4_0_tensor(name)
    }

    open spec fn countable(&self, name: Seq<char>) -> bool {
        true
    }

    fn load_vector(&self, name: &str) -> (result: Result<Vec<u32>, TinyAgentError>) {
        self.load_f32(name)
    }

    fn load_matrix(&self, name: &str) -> (result: Result<QuantTensor, TinyAgentError>) {
        self.load_q4_0(name)
    }
}

impl Checkpoint for SafeTensorFile {
    open spec fn ready(&self) -> bool {
        self.wf()
    }

    open spec fn vector(&self, name: Seq<char>) -> Result<Seq<u32>, Seq<char>> {
        self@.bf16_tensor(name)
    }

    open spec fn matrix(&self, name: Seq<char>) -> Result<QuantMatrix, Seq<char>> {
        self@.quant_tensor(name)
    }

    open spec fn countable(&self, name: Seq<char>) -> bool {
        self@.columns_fit(name)
    }

    fn load_vector(&self, name: &str) -> (result: Result<Vec<u32>, TinyAgentError>) {
        self.load_bf16(name)
    }

    fn load_matrix(&self, name: &str) -> (result: Result<QuantTensor, TinyAgentError>) {
        self.load_quant(name)
    }
}

/// The names of a layer's tensors, behind the layer's own prefix.
pub struct LayerNames {
    pub prefix: String,
    pub input_norm: String,
    pub post_norm: String,
    pub q_proj: String,
    pub k_proj: String,
    pub v_proj: String,
    pub o_proj: String,
    pub q_bias: String,
    pub k_bias: String,
    pub v_bias: String,
    pub gate_proj: String,
    pub up_proj: String,
    pub down_proj: String,
}

/// The mathematical value of `LayerNames`.
pub struct NamesView {
    pub prefix: Seq<char>,
    pub input_norm: Seq<char>,
    pub post_norm: Seq<char>,
    pub q_proj: Seq<char>,
    pub k_proj: Seq<char>,
    pub v_proj: Seq<char>,
    pub o_proj: Seq<char>,
    pub q_bias: Seq<char>,
    pub k_bias: Seq<char>,
    pub v_bias: Seq<char>,
    pub gate_proj: Seq<char>,
    pub up_proj: Seq<char>,
    pub down_proj: Seq<char>,
}

impl View for LayerNames {
    type V = NamesView;

    open spec fn view(&self) -> NamesView {
        NamesView {
            prefix: self.prefix@,
            input_norm: self.input_norm@,
            post_norm: self.post_norm@,
            q_proj: self.q_proj@,
            k_proj: self.k_proj@,
            v_proj: self.v_proj@,
            o_proj: self.o_proj@,
            q_bias: self.q_bias@,
            k_bias: self.k_bias@,
            v_bias: self.v_bias@,
            gate_proj: self.gate_proj@,
            up_proj: self.up_proj@,
            down_proj: self.down_proj@,
        }
    }
}

/// The names that GGUF files use.
pub open spec fn gguf_names() -> NamesView {
    NamesView {
        prefix: "blk."@,
        input_norm: ".attn_norm.weight"@,
        post_norm: ".ffn_norm.weight"@,
        q_proj: ".attn_q.weight"@,
        k_proj: ".attn_k.weight"@,
        v_proj: ".attn_v.weight"@,
        o_proj: ".attn_output.weight"@,
        q_bias: ".attn_q.bias"@,
        k_bias: ".attn_k.bias"@,
        v_bias: ".attn_v.bias"@,
        gate_proj: ".ffn_gate.weight"@,
        up_proj: ".ffn_up.weight"@,
        down_proj: ".ffn_down.weight"@,
    }
}

/// The names that MLX checkpoints use.
pub open spec fn mlx_names() -> NamesView {
    NamesView {
        prefix: "model.layers."@,
        input_norm: ".input_layernorm.weight"@,
        post_norm: ".post_attention_layernorm.weight"@,
        q_proj: ".self_attn.q_proj"@,
        k_proj: ".self_attn.k_proj"@,
        v_proj: ".self_attn.v_proj"@,
        o_proj: ".self_attn.o_proj"@,
        q_bias: ".self_attn.q_proj.bias"@,
        k_bias: ".self_attn.k_proj.bias"@,
        v_bias: ".self_attn.v_proj.bias"@,
        gate_proj: ".mlp.gate_proj"@,
        up_proj: ".mlp.up_proj"@,
        down_proj: ".mlp.down_proj"@,
    }
}

impl LayerNames {
    fn gguf() -> (names: Self)
        ensures
            names@ == gguf_names(),
    {
        LayerNames {
            prefix: "blk.".to_owned(),
            input_norm: ".attn_norm.weight".to_owned(),
            post_norm: ".ffn_norm.weight".to_owned(),
            q_proj: ".attn_q.weight".to_owned(),
            k_proj: ".attn_k.weight".to_owned(),
            v_proj: ".attn_v.weight".to_owned(),
            o_proj: ".attn_output.weight".to_owned(),
            q_bias: ".attn_q.bias".to_owned(),
            k_bias: ".attn_k.bias".to_owned(),
            v_bias: ".attn_v.bias".to_owned(),
            gate_proj: ".ffn_gate.weight".to_owned(),
            up_proj: ".ffn_up.weight".to_owned(),
            down_proj: ".ffn_down.weight".to_owned(),
        }
    }

    fn mlx() -> (names: Self)
        ensures
            names@ == mlx_names(),
    {
        LayerNames {
            prefix: "model.layers.".to_owned(),
            input_norm: ".input_layernorm.weight".to_owned(),
            post_norm: ".post_attention_layernorm.weight".to_owned(),
            q_proj: ".self_attn.q_proj".to_owned(),
            k_proj: ".self_attn.k_proj".to_owned(),
            v_proj: ".self_attn.v_proj".to_owned(),
            o_proj: ".self_attn.o_proj".to_owned(),
            q_bias: ".self_attn.q_proj.bias".to_owned(),
            k_bias: ".self_attn.k_proj.bias".to_owned(),
            v_bias: ".self_attn.v_proj.bias".to_owned(),
            gate_proj: ".mlp.gate_proj".to_owned(),
            up_proj: ".mlp.up_proj".to_owned(),
            down_proj: ".mlp.down_proj".to_owned(),
        }
    }
}

/// The columns of each matrix of layer `index` can be counted.
pub open spec fn layer_countable<C: Checkpoint>(file: &C, names: NamesView, index: nat) -> bool {
    let prefix = names.prefix + decimal(index);
    &&& file.countable(prefix + names.q_proj)
    &&& file.countable(prefix + names.k_proj)
    &&& file.countable(prefix + names.v_proj)
    &&& file.countable(prefix + names.o_proj)
    &&& file.countable(prefix + names.gate_proj)
    &&& file.countable(prefix + names.up_proj)
    &&& file.countable(prefix + names.down_proj)
}

/// The columns of each matrix of the first `count` layers can be counted.
pub open spec fn layers_countable<C: Checkpoint>(file: &C, names: NamesView, count: nat) -> bool {
    forall|index: nat| index < count ==> #[trigger] layer_countable(file, names, index)
}

/// The first failure among a layer's tensors, in the order in which they are
/// loaded.
pub open spec fn layer_failure<C: Checkpoint>(file: &C, prefix: Seq<char>, names: NamesView) -> Option<
    Seq<char>,
> {
    let vector = |name: Seq<char>| failure(file.vector(prefix + name));
    let matrix = |name: Seq<char>| failure(file.matrix(prefix + name));
    first(
        vector(names.input_norm),
        first(
            vector(names.post_norm),
            first(
                matrix(names.q_proj),
                first(
                    matrix(names.k_proj),
                    first(
                        matrix(names.v_proj),
                        first(
                            matrix(names.o_proj),
                            first(
                                vector(names.q_bias),
                                first(
                                    vector(names.k_bias),
                                    first(
                                        vector(names.v_bias),
                                        first(
                                            matrix(names.gate_proj),
                                            first(
                                                matrix(names.up_proj),
                                                matrix(names.down_proj),
                                            ),
                                        ),
                                    ),
                                ),
                            ),
                        ),
                    ),
                ),
            ),
        ),
    )
}

/// The text of a failure.
pub open spec fn failure<T>(result: Result<T, Seq<char>>) -> Option<Seq<char>> {
    match result {
        Ok(_) => None,
        Err(text) => Some(text),
    }
}

/// Layer `index` as the file holds it.
pub open spec fn layer_of<C: Checkpoint>(file: &C, names: NamesView, index: nat) -> Result<
    LayerFacts,
    Seq<char>,
> {
    let prefix = names.prefix + decimal(index);
    match layer_failure(file, prefix, names) {
        Some(text) => Err(text),
        None => Ok(
            LayerFacts {
                input_norm: file.vector(prefix + names.input_norm)->Ok_0,
                post_norm: file.vector(prefix + names.post_norm)->Ok_0,
                q_proj: file.matrix(prefix + names.q_proj)->Ok_0,
                k_proj: file.matrix(prefix + names.k_proj)->Ok_0,
                v_proj: file.matrix(prefix + names.v_proj)->Ok_0,
                o_proj: file.matrix(prefix + names.o_proj)->Ok_0,
                q_bias: file.vector(prefix + names.q_bias)->Ok_0,
                k_bias: file.vector(prefix + names.k_bias)->Ok_0,
                v_bias: file.vector(prefix + names.v_bias)->Ok_0,
                gate_proj: file.matrix(prefix + names.gate_proj)->Ok_0,
                up_proj: file.matrix(prefix + names.up_proj)->Ok_0,
                down_proj: file.matrix(prefix + names.down_proj)->Ok_0,
            },
        ),
    }
}

fn load_layer<C: Checkpoint>(file: &C, names: &LayerNames, index: usize) -> (result: Result<
    QwenLayer,
    TinyAgentError,
>)
    requires
        file.ready(),
        layer_countable(file, names@, index as nat),
    ensures
        config_outcome(result, layer_of(file, names@, index as nat)),
{
    let prefix = cat2(names.prefix.as_str(), decimal_usize(index).as_str());
    let input_layernorm_weight = match file.load_vector(
        cat2(prefix.as_str(), names.input_norm.as_str()).as_str(),
    ) {
        Ok(vector) => vector,
        Err(error) => return Err(error),
    };
    let post_attention_layernorm_weight = match file.load_vector(
        cat2(prefix.as_str(), names.post_norm.as_str()).as_str(),
    ) {
        Ok(vector) => vector,
        Err(error) => return Err(error),
    };
    let q_proj = match file.load_matrix(cat2(prefix.as_str(), names.q_proj.as_str()).as_str()) {
        Ok(matrix) => matrix,
        Err(error) => return Err(error),
    };
    let k_proj = match file.load_matrix(cat2(prefix.as_str(), names.k_proj.as_str()).as_str()) {
        Ok(matrix) => matrix,
        Err(error) => return Err(error),
    };
    let v_proj = match file.load_matrix(cat2(prefix.as_str(), names.v_proj.as_str()).as_str()) {
        Ok(matrix) => matrix,
        Err(error) => return Err(error),
    };
    let o_proj = match file.load_matrix(cat2(prefix.as_str(), names.o_proj.as_str()).as_str()) {
        Ok(matrix) => matrix,
        Err(error) => return Err(error),
    };
    let q_bias = match file.load_vector(cat2(prefix.as_str(), names.q_bias.as_str()).as_str()) {
        Ok(vector) => vector,
        Err(error) => return Err(error),
    };
    let k_bias = match file.load_vector(cat2(prefix.as_str(), names.k_bias.as_str()).as_str()) {
        Ok(vector) => vector,
        Err(error) => return Err(error),
    };
    let v_bias = match file.load_vector(cat2(prefix.as_str(), names.v_bias.as_str()).as_str()) {
        Ok(vector) => vector,
        Err(error) => return Err(error),
    };
    let gate_proj = match file.load_matrix(
        cat2(prefix.as_str(), names.gate_proj.as_str()).as_str(),
    ) {
        Ok(matrix) => matrix,
        Err(error) => return Err(error),
    };
    let up_proj = match file.load_matrix(cat2(prefix.as_str(), names.up_proj.as_str()).as_str()) {
        Ok(matrix) => matrix,
        Err(error) => return Err(error),
    };
    let down_proj = match file.load_matrix(
        cat2(prefix.as_str(), names.down_proj.as_str()).as_str(),
    ) {
        Ok(matrix) => matrix,
        Err(error) => return Err(error),
    };
    Ok(
        QwenLayer {
            input_layernorm_weight,
            post_attention_layernorm_weight,
            q_proj,
            k_proj,
            v_proj,
            o_proj,
            q_bias,
            k_bias,
            v_bias,
            gate_proj,
            up_proj,
            down_proj,
        },
    )
}

fn layer_columns_fit(file: &SafeTensorFile, names: &LayerNames, index: usize) -> (yes: bool)
    requires
        file.wf(),
    ensures
        yes == layer_countable(file, names@, index as nat),
{
    let prefix = cat2(names.prefix.as_str(), decimal_usize(index).as_str());
    file.columns_fit(cat2(prefix.as_str(), names.q_proj.as_str()).as_str()) && file.columns_fit(
        cat2(prefix.as_str(), names.k_proj.as_str()).as_str(),
    ) && file.columns_fit(cat2(prefix.as_str(), names.v_proj.as_str()).as_str())
        && file.columns_fit(cat2(prefix.as_str(), names.o_proj.as_str()).as_str())
        && file.columns_fit(cat2(prefix.as_str(), names.gate_proj.as_str()).as_str())
        && file.columns_fit(cat2(prefix.as_str(), names.up_proj.as_str()).as_str())
        && file.columns_fit(cat2(prefix.as_str(), names.down_proj.as_str()).as_str())
}

/// The first `count` layers, each loaded and checked before the next.
pub open spec fn layers_of<C: Checkpoint>(
    file: &C,
    names: NamesView,
    config: QwenRuntimeConfig,
    count: nat,
) -> Result<Seq<LayerFacts>, Seq<char>>
    decreases count,
{
    if count == 0 {
        Ok(Seq::empty())
    } else {
        let index = (count - 1) as nat;
        match layers_of(file, names, config, index) {
            Err(text) => Err(text),
            Ok(layers) => match layer_of(file, names, index) {
                Err(text) => Err(text),
                Ok(layer) => match layer_refusal(layer, config, index) {
                    Some(text) => Err(text),
                    None => Ok(layers.push(layer)),
                },
            },
        }
    }
}

proof fn lemma_layers_fail<C: Checkpoint>(
    file: &C,
    names: NamesView,
    config: QwenRuntimeConfig,
    fewer: nat,
    more: nat,
)
    requires
        fewer <= more,
        layers_of(file, names, config, fewer) is Err,
    ensures
        layers_of(file, names, config, more) == layers_of(file, names, config, fewer),
    decreases more,
{
    if fewer < more {
        lemma_layers_fail(file, names, config, fewer, (more - 1) as nat);
    }
}

fn load_layers<C: Checkpoint>(file: &C, names: &LayerNames, config: &QwenRuntimeConfig) -> (result: Result<
    Vec<QwenLayer>,
    TinyAgentError,
>)
    requires
        file.ready(),
        layers_countable(file, names@, config.num_hidden_layers as nat),
        kv_dim(*config) <= usize::MAX,
    ensures
        match result {
            Ok(layers) => layers_of(file, names@, *config, config.num_hidden_layers as nat) == Ok::<
                Seq<LayerFacts>,
                Seq<char>,
            >(views(layers@)),
            Err(error) => error@ is Configuration && layers_of(
                file,
                names@,
                *config,
                config.num_hidden_layers as nat,
            ) == Err::<Seq<LayerFacts>, Seq<char>>(error@->Configuration_0),
        },
        result is Ok ==> forall|i: int|
            0 <= i < result->Ok_0@.len() ==> layer_fits((#[trigger] result->Ok_0@[i])@, *config),
{
    let count: usize = config.num_hidden_layers;
    let mut layers: Vec<QwenLayer> = Vec::new();
    let mut index: usize = 0;
    assert(views(layers@) =~= Seq::<LayerFacts>::empty());
    while index < count
        invariant
            file.ready(),
            layers_countable(file, names@, count as nat),
            kv_dim(*config) <= usize::MAX,
            count == config.num_hidden_layers,
            index <= count,
            layers_of(file, names@, *config, index as nat) == Ok::<Seq<LayerFacts>, Seq<char>>(
                views(layers@),
            ),
            layers@.len() == index,
            forall|i: int|
                0 <= i < layers@.len() ==> layer_fits((#[trigger] layers@[i])@, *config),
        decreases count - index,
    {
        let loaded = load_layer(file, names, index);
        let layer = match loaded {
            Ok(layer) => layer,
            Err(error) => {
                proof {
                    lemma_layers_fail(file, names@, *config, (index + 1) as nat, count as nat);
                }
                return Err(error);
            },
        };
        if let Err(error) = layer.validate_shapes(config, index) {
            proof {
                lemma_layers_fail(file, names@, *config, (index + 1) as nat, count as nat);
            }
            return Err(error);
        }
        let ghost before = layers@;
        layers.push(layer);
        assert(views(layers@) =~= views(before).push(layer@));
        index = index + 1;
    }
    Ok(layers)
}

/// A model with everything that its graph needs.
#[derive(Debug)]
pub struct QwenRuntimeModel {
    pub config: QwenRuntimeConfig,
    pub projection_backend: QwenProjectionBackend,
    pub embed_tokens: QuantTensor,
    pub lm_head: Option<QuantTensor>,
    pub layers: Vec<QwenLayer>,
    pub norm_weight: Vec<u32>,
}

/// The mathematical value of a `QwenRuntimeModel`.
pub struct ModelImage {
    pub config: QwenRuntimeConfig,
    pub projection_backend: QwenProjectionBackend,
    pub embed_tokens: QuantMatrix,
    pub lm_head: Option<QuantMatrix>,
    pub layers: Seq<LayerFacts>,
    pub norm_weight: Seq<u32>,
}

impl View for QwenRuntimeModel {
    type V = ModelImage;

    open spec fn view(&self) -> ModelImage {
        ModelImage {
            config: self.config,
            projection_backend: self.projection_backend,
            embed_tokens: self.embed_tokens@,
            lm_head: match self.lm_head {
                Some(tensor) => Some(tensor@),
                None => None,
            },
            layers: views(self.layers@),
            norm_weight: self.norm_weight@,
        }
    }
}

impl ModelImage {
    /// Every tensor has the shape that the configuration asks for.
    pub open spec fn fits(self) -> bool {
        &&& self.embed_tokens.out_dim == self.config.vocab_size
        &&& self.embed_tokens.in_dim == self.config.hidden_size
        &&& self.lm_head is Some ==> self.lm_head->0.out_dim == self.config.vocab_size
            && self.lm_head->0.in_dim == self.config.hidden_size
        &&& self.norm_weight.len() == self.config.hidden_size
        &&& self.layers.len() == self.config.num_hidden_layers
        &&& forall|i: int|
            0 <= i < self.layers.len() ==> layer_fits(#[trigger] self.layers[i], self.config)
    }
}

/// The configuration of a GGUF file.
pub open spec fn gguf_config(image: GgufImage) -> Result<QwenRuntimeConfig, Seq<char>> {
    match image.number("qwen2.embedding_length"@) {
        Err(text) => Err(text),
        Ok(hidden_size) => match image.number("qwen2.attention.head_count"@) {
            Err(text) => Err(text),
            Ok(heads) => if heads == 0 {
                Err("qwen2.attention.head_count must be greater than zero"@)
            } else {
                match image.number("qwen2.feed_forward_length"@) {
                    Err(text) => Err(text),
                    Ok(intermediate_size) => match image.number("qwen2.block_count"@) {
                        Err(text) => Err(text),
                        Ok(num_hidden_layers) => match image.number(
                            "qwen2.attention.head_count_kv"@,
                        ) {
                            Err(text) => Err(text),
                            Ok(num_key_value_heads) => match image.array_len(
                                "tokenizer.ggml.tokens"@,
                            ) {
                                None => Err("missing tokenizer.ggml.tokens metadata"@),
                                Some(vocab_size) => match image.float("qwen2.rope.freq_base"@) {
                                    Err(text) => Err(text),
                                    Ok(rope_theta) => match image.float(
                                        "qwen2.attention.layer_norm_rms_epsilon"@,
                                    ) {
                                        Err(text) => Err(text),
                                        Ok(rms_norm_eps) => Ok(
                                            QwenRuntimeConfig {
                                                hidden_size,
                                                intermediate_size,
                                                num_hidden_layers,
                                                num_attention_heads: heads,
                                                num_key_value_heads,
                                                head_dim: hidden_size / heads,
                                                vocab_size,
                                                rope_theta: FloatBits::Single(rope_theta),
                                                rms_norm_eps: FloatBits::Single(rms_norm_eps),
                                                tie_word_embeddings: !image.tensors.dom().contains(
                                                    "output.weight"@,
                                                ),
                                            },
                                        ),
                                    },
                                },
                            },
                        },
                    },
                }
            },
        },
    }
}

/// The head of a GGUF file: the matrix `output.weight`, where there is one.
pub open spec fn gguf_head(image: GgufImage, config: QwenRuntimeConfig) -> Result<
    Option<QuantMatrix>,
    Seq<char>,
> {
    let name = "output.weight"@;
    if image.tensors.dom().contains(name) {
        match image.q8_0_tensor(name) {
            Err(text) => Err(text),
            Ok(matrix) => match shape_refusal(
                name,
                matrix,
                config.vocab_size as nat,
                config.hidden_size as nat,
            ) {
                Some(text) => Err(text),
                None => Ok(Some(matrix)),
            },
        }
    } else {
        Ok(None)
    }
}

/// The parts of a model that do not belong to a layer: embedding and head.
pub open spec fn checked_matrix(
    name: Seq<char>,
    loaded: Result<QuantMatrix, Seq<char>>,
    config: QwenRuntimeConfig,
) -> Result<QuantMatrix, Seq<char>> {
    match loaded {
        Err(text) => Err(text),
        Ok(matrix) => match shape_refusal(
            name,
            matrix,
            config.vocab_size as nat,
            config.hidden_size as nat,
        ) {
            Some(text) => Err(text),
            None => Ok(matrix),
        },
    }
}

/// The weight of the last normalisation, of the length that is asked for.
pub open spec fn checked_vector(
    name: Seq<char>,
    loaded: Result<Seq<u32>, Seq<char>>,
    expected: nat,
) -> Result<Seq<u32>, Seq<char>> {
    match loaded {
        Err(text) => Err(text),
        Ok(vector) => match len_refusal(name, vector.len(), expected) {
            Some(text) => Err(text),
            None => Ok(vector),
        },
    }
}

/// The model that a GGUF file holds.
pub open spec fn gguf_model(file: GgufFile, projection_backend: QwenProjectionBackend) -> Result<
    ModelImage,
    Seq<char>,
> {
    let image = file@;
    match gguf_config(image) {
        Err(text) => Err(text),
        Ok(config) => match checked_matrix(
            "token_embd.weight"@,
            image.q4_0_tensor("token_embd.weight"@),
            config,
        ) {
            Err(text) => Err(text),
            Ok(embed_tokens) => match gguf_head(image, config) {
                Err(text) => Err(text),
                Ok(lm_head) => match checked_vector(
                    "output_norm.weight"@,
                    image.f32_tensor("output_norm.weight"@),
                    config.hidden_size as nat,
                ) {
                    Err(text) => Err(text),
                    Ok(norm_weight) => match layers_of(
                        &file,
                        gguf_names(),
                        config,
                        config.num_hidden_layers as nat,
                    ) {
                        Err(text) => Err(text),
                        Ok(layers) => Ok(
                            ModelImage {
                                config,
                                projection_backend,
                                embed_tokens,
                                lm_head,
                                layers,
                                norm_weight,
                            },
                        ),
                    },
                },
            },
        },
    }
}

/// The model that an MLX checkpoint holds.
pub open spec fn mlx_model(
    config: QwenRuntimeConfig,
    file: SafeTensorFile,
    projection_backend: QwenProjectionBackend,
) -> Result<ModelImage, Seq<char>> {
    let image = file@;
    if !config.tie_word_embeddings {
        Err("only tied Qwen embeddings are supported by the minimal runtime"@)
    } else {
        match checked_matrix(
            "model.embed_tokens"@,
            image.quant_tensor("model.embed_tokens"@),
            config,
        ) {
            Err(text) => Err(text),
            Ok(embed_tokens) => match checked_vector(
                "model.norm.weight"@,
                image.bf16_tensor("model.norm.weight"@),
                config.hidden_size as nat,
            ) {
                Err(text) => Err(text),
                Ok(norm_weight) => match layers_of(
                    &file,
                    mlx_names(),
                    config,
                    config.num_hidden_layers as nat,
                ) {
                    Err(text) => Err(text),
                    Ok(layers) => Ok(
                        ModelImage {
                            config,
                            projection_backend,
                            embed_tokens,
                            lm_head: None,
                            layers,
                            norm_weight,
                        },
                    ),
                },
            },
        }
    }
}

/// The columns of each matrix of an MLX checkpoint's model can be counted.
pub open spec fn mlx_countable(config: QwenRuntimeConfig, file: SafeTensorFile) -> bool {
    &&& file.countable("model.embed_tokens"@)
    &&& layers_countable(&file, mlx_names(), config.num_hidden_layers as nat)
}

impl QwenRuntimeConfig {
    /// The configuration of a GGUF file.
    pub fn read_gguf(gguf: &GgufFile) -> (result: Result<QwenRuntimeConfig, TinyAgentError>)
        requires
            gguf.wf(),
        ensures
            config_outcome(result, gguf_config(gguf@)),
    {
        let hidden_size: usize = match gguf.required_usize("qwen2.embedding_length") {
            Ok(value) => value,
            Err(error) => return Err(error),
        };
        let num_attention_heads: usize = match gguf.required_usize("qwen2.attention.head_count") {
            Ok(value) => value,
            Err(error) => return Err(error),
        };
        if num_attention_heads == 0 {
            return Err(config_error("qwen2.attention.head_count must be greater than zero"));
        }
        let intermediate_size: usize = match gguf.required_usize("qwen2.feed_forward_length") {
            Ok(value) => value,
            Err(error) => return Err(error),
        };
        let num_hidden_layers: usize = match gguf.required_usize("qwen2.block_count") {
            Ok(value) => value,
            Err(error) => return Err(error),
        };
        let num_key_value_heads: usize = match gguf.required_usize(
            "qwen2.attention.head_count_kv",
        ) {
            Ok(value) => value,
            Err(error) => return Err(error),
        };
        let vocab_size: usize = match gguf.metadata_array_len("tokenizer.ggml.tokens") {
            Some(len) => len,
            None => return Err(config_error("missing tokenizer.ggml.tokens metadata")),
        };
        let rope_theta: u32 = match gguf.required_f32("qwen2.rope.freq_base") {
            Ok(bits) => bits,
            Err(error) => return Err(error),
        };
        let rms_norm_eps: u32 = match gguf.required_f32("qwen2.attention.layer_norm_rms_epsilon") {
            Ok(bits) => bits,
            Err(error) => return Err(error),
        };
        Ok(
            QwenRuntimeConfig {
                hidden_size,
                intermediate_size,
                num_hidden_layers,
                num_attention_heads,
                num_key_value_heads,
                head_dim: hidden_size / num_attention_heads,
                vocab_size,
                rope_theta: FloatBits::Single(rope_theta),
                rms_norm_eps: FloatBits::Single(rms_norm_eps),
                tie_word_embeddings: !gguf.has_tensor("output.weight"),
            },
        )
    }

    /// Whether the width of a key can be counted.
    pub fn kv_dim_fits(&self) -> (yes: bool)
        ensures
            yes == (kv_dim(*self) <= usize::MAX),
    {
        proof {
            assert(self.num_key_value_heads * self.head_dim <= 0xffff_ffff_ffff_ffff
                * 0xffff_ffff_ffff_ffff && 0 <= self.num_key_value_heads * self.head_dim)
                by (nonlinear_arith)
                requires
                    0 <= self.num_key_value_heads <= 0xffff_ffff_ffff_ffff,
                    0 <= self.head_dim <= 0xffff_ffff_ffff_ffff,
            ;
        }
        self.num_key_value_heads as u128 * self.head_dim as u128 <= usize::MAX as u128
    }

    /// Whether the embedding serves as the head too, as a checkpoint without a
    /// head of its own needs.
    pub fn check_tied(&self) -> (result: Result<(), TinyAgentError>)
        ensures
            config_outcome(
                result,
                if self.tie_word_embeddings {
                    Ok(())
                } else {
                    Err("only tied Qwen embeddings are supported by the minimal runtime"@)
                },
            ),
    {
        if !self.tie_word_embeddings {
            return Err(
                config_error("only tied Qwen embeddings are supported by the minimal runtime"),
            );
        }
        Ok(())
    }
}

fn check_matrix(name: &str, loaded: Result<QuantTensor, TinyAgentError>, config: &QwenRuntimeConfig) -> (result: Result<
    QuantTensor,
    TinyAgentError,
>)
    requires
        loaded is Err ==> loaded->Err_0@ is Configuration,
    ensures
        config_outcome(
            result,
            checked_matrix(
                name@,
                match loaded {
                    Ok(tensor) => Ok(tensor@),
                    Err(error) => Err(error@->Configuration_0),
                },
                *config,
            ),
        ),
{
    let tensor = match loaded {
        Ok(tensor) => tensor,
        Err(error) => return Err(error),
    };
    match ensure_quant_shape(name, &tensor, config.vocab_size, config.hidden_size) {
        Ok(_) => Ok(tensor),
        Err(error) => Err(error),
    }
}

impl QwenRuntimeModel {
    /// The model that a GGUF file holds.
    pub fn load_gguf(tensors: &GgufFile, projection_backend: QwenProjectionBackend) -> (result: Result<
        Self,
        TinyAgentError,
    >)
        requires
            tensors.wf(),
            gguf_config(tensors@) is Ok ==> kv_dim(gguf_config(tensors@)->Ok_0) <= usize::MAX,
        ensures
            config_outcome(result, gguf_model(*tensors, projection_backend)),
            result is Ok ==> result->Ok_0@.fits(),
    {
        let config = match QwenRuntimeConfig::read_gguf(tensors) {
            Ok(config) => config,
            Err(error) => return Err(error),
        };
        let embed_tokens = match check_matrix(
            "token_embd.weight",
            tensors.load_q4_0("token_embd.weight"),
            &config,
        ) {
            Ok(tensor) => tensor,
            Err(error) => return Err(error),
        };
        let lm_head = if tensors.has_tensor("output.weight") {
            match check_matrix("output.weight", tensors.load_q8_0("output.weight"), &config) {
                Ok(tensor) => Some(tensor),
                Err(error) => return Err(error),
            }
        } else {
            None
        };
        let norm_weight = match tensors.load_f32("output_norm.weight") {
            Ok(vector) => vector,
            Err(error) => return Err(error),
        };
        if let Err(error) = ensure_len("output_norm.weight", norm_weight.len(), config.hidden_size) {
            return Err(error);
        }
        let layers = match load_layers(tensors, &LayerNames::gguf(), &config) {
            Ok(layers) => layers,
            Err(error) => return Err(error),
        };
        proof {
            lemma_layer_count(tensors, gguf_names(), config, config.num_hidden_layers as nat);
        }
        Ok(
            QwenRuntimeModel {
                config,
                projection_backend,
                embed_tokens,
                lm_head,
                layers,
                norm_weight,
            },
        )
    }

    /// Whether the columns of each matrix of an MLX checkpoint's model can be
    /// counted.
    pub fn mlx_columns_fit(config: &QwenRuntimeConfig, tensors: &SafeTensorFile) -> (yes: bool)
        requires
            tensors.wf(),
        ensures
            yes == mlx_countable(*config, *tensors),
    {
        if !tensors.columns_fit("model.embed_tokens") {
            return false;
        }
        let names = LayerNames::mlx();
        let mut index: usize = 0;
        #[verifier::loop_isolation(false)]
        while index < config.num_hidden_layers
            invariant
                index <= config.num_hidden_layers,
                layers_countable(tensors, mlx_names(), index as nat),
            decreases config.num_hidden_layers - index,
        {
            if !layer_columns_fit(tensors, &names, index) {
                assert(!layer_countable(tensors, mlx_names(), index as nat));
                return false;
            }
            index = index + 1;
        }
        true
    }

    /// The model that an MLX checkpoint holds.
    pub fn load_mlx(
        config: &QwenRuntimeConfig,
        tensors: &SafeTensorFile,
        projection_backend: QwenProjectionBackend,
    ) -> (result: Result<Self, TinyAgentError>)
        requires
            tensors.wf(),
            mlx_countable(*config, *tensors),
            kv_dim(*config) <= usize::MAX,
        ensures
            config_outcome(result, mlx_model(*config, *tensors, projection_backend)),
            result is Ok ==> result->Ok_0@.fits(),
    {
        if let Err(error) = config.check_tied() {
            return Err(error);
        }
        let embed_tokens = match check_matrix(
            "model.embed_tokens",
            tensors.load_quant("model.embed_tokens"),
            config,
        ) {
            Ok(tensor) => tensor,
            Err(error) => return Err(error),
        };
        let norm_weight = match tensors.load_bf16("model.norm.weight") {
            Ok(vector) => vector,
            Err(error) => return Err(error),
        };
        if let Err(error) = ensure_len("model.norm.weight", norm_weight.len(), config.hidden_size) {
            return Err(error);
        }
        let layers = match load_layers(tensors, &LayerNames::mlx(), config) {
            Ok(layers) => layers,
            Err(error) => return Err(error),
        };
        proof {
            lemma_layer_count(tensors, mlx_names(), *config, config.num_hidden_layers as nat);
        }
        Ok(
            QwenRuntimeModel {
                config: *config,
                projection_backend,
                embed_tokens,
                lm_head: None,
                layers,
                norm_weight,
            },
        )
    }
}

proof fn lemma_layer_count<C: Checkpoint>(
    file: &C,
    names: NamesView,
    config: QwenRuntimeConfig,
    count: nat,
)
    ensures
        layers_of(file, names, config, count) is Ok ==> layers_of(
            file,
            names,
            config,
            count,
        )->Ok_0.len() == count,
    decreases count,
{
    if count > 0 {
        lemma_layer_count(file, names, config, (count - 1) as nat);
    }
}

/// A whole number in the metadata of a GGUF file, as far as a `usize` holds it.
pub open spec fn tells_number(image: GgufImage, key: Seq<char>, number: usize) -> bool {
    &&& image.metadata.dom().contains(key)
    &&& match image.metadata[key] {
        GgufValue::U32(value) => number == value as usize,
        GgufValue::U64(value) => number == value as usize,
        _ => false,
    }
}

/// Each number of the configuration of a GGUF file is the one that the metadata
/// give under its key. The vocabulary is as great as the list of its tokens, the
/// heads share out as much of the hidden state as they can, and the embedding is
/// tied where there is no matrix for the output.
#[verifier::rlimit(50)]
pub proof fn gguf_numbers_are_metadata(image: GgufImage)
    requires
        gguf_config(image) is Ok,
    ensures
        ({
            let config = gguf_config(image)->Ok_0;
            &&& tells_number(image, "qwen2.embedding_length"@, config.hidden_size)
            &&& tells_number(image, "qwen2.feed_forward_length"@, config.intermediate_size)
            &&& tells_number(image, "qwen2.block_count"@, config.num_hidden_layers)
            &&& tells_number(image, "qwen2.attention.head_count"@, config.num_attention_heads)
            &&& tells_number(image, "qwen2.attention.head_count_kv"@, config.num_key_value_heads)
            &&& config.num_attention_heads > 0
            &&& config.head_dim * config.num_attention_heads <= config.hidden_size < (
            config.head_dim + 1) * config.num_attention_heads
            &&& image.metadata.dom().contains("tokenizer.ggml.tokens"@)
            &&& image.metadata["tokenizer.ggml.tokens"@] == GgufValue::ArrayLen(config.vocab_size)
            &&& image.metadata.dom().contains("qwen2.rope.freq_base"@)
            &&& image.metadata["qwen2.rope.freq_base"@] is F32
            &&& config.rope_theta == FloatBits::Single(
                image.metadata["qwen2.rope.freq_base"@]->F32_0,
            )
            &&& image.metadata.dom().contains("qwen2.attention.layer_norm_rms_epsilon"@)
            &&& image.metadata["qwen2.attention.layer_norm_rms_epsilon"@] is F32
            &&& config.rms_norm_eps == FloatBits::Single(
                image.metadata["qwen2.attention.layer_norm_rms_epsilon"@]->F32_0,
            )
            &&& config.tie_word_embeddings <==> !image.tensors.dom().contains("output.weight"@)
        }),
{
    let config = gguf_config(image)->Ok_0;
    let width = config.hidden_size as int;
    let heads = config.num_attention_heads as int;
    assert(width / heads * heads <= width < (width / heads + 1) * heads) by (nonlinear_arith)
        requires
            heads > 0,
            width >= 0,
    ;
}

proof fn lemma_layers_are_loaded<C: Checkpoint>(
    file: &C,
    names: NamesView,
    config: QwenRuntimeConfig,
    count: nat,
    index: nat,
)
    requires
        layers_of(file, names, config, count) is Ok,
        index < count,
    ensures
        layer_of(file, names, index) is Ok,
        layers_of(file, names, config, count)->Ok_0.len() == count,
        layers_of(file, names, config, count)->Ok_0[index as int] == layer_of(
            file,
            names,
            index,
        )->Ok_0,
        layer_refusal(layer_of(file, names, index)->Ok_0, config, index) is None,
    decreases count,
{
    lemma_layer_count(file, names, config, count);
    lemma_layer_count(file, names, config, (count - 1) as nat);
    if index + 1 < count {
        lemma_layers_are_loaded(file, names, config, (count - 1) as nat, index);
    }
}

/// The tensors of a model that was loaded from a GGUF file are those that the
/// file holds under their names, and every one of them has the shape that the
/// configuration asks for.
#[verifier::rlimit(50)]
pub proof fn gguf_tensors_are_named_tensors(
    file: GgufFile,
    projection_backend: QwenProjectionBackend,
    index: nat,
)
    requires
        gguf_model(file, projection_backend) is Ok,
        index < gguf_model(file, projection_backend)->Ok_0.config.num_hidden_layers,
    ensures
        ({
            let model = gguf_model(file, projection_backend)->Ok_0;
            let layer = model.layers[index as int];
            let block = "blk."@ + decimal(index);
            let matrix = |name: Seq<char>| file@.q4_0_tensor(name);
            let vector = |name: Seq<char>| file@.f32_tensor(name);
            &&& model.layers.len() == model.config.num_hidden_layers
            &&& layer_fits(layer, model.config)
            &&& vector(block + ".attn_norm.weight"@) == Ok::<_, Seq<char>>(layer.input_norm)
            &&& vector(block + ".ffn_norm.weight"@) == Ok::<_, Seq<char>>(layer.post_norm)
            &&& matrix(block + ".attn_q.weight"@) == Ok::<_, Seq<char>>(layer.q_proj)
            &&& matrix(block + ".attn_k.weight"@) == Ok::<_, Seq<char>>(layer.k_proj)
            &&& matrix(block + ".attn_v.weight"@) == Ok::<_, Seq<char>>(layer.v_proj)
            &&& matrix(block + ".attn_output.weight"@) == Ok::<_, Seq<char>>(layer.o_proj)
            &&& vector(block + ".attn_q.bias"@) == Ok::<_, Seq<char>>(layer.q_bias)
            &&& vector(block + ".attn_k.bias"@) == Ok::<_, Seq<char>>(layer.k_bias)
            &&& vector(block + ".attn_v.bias"@) == Ok::<_, Seq<char>>(layer.v_bias)
            &&& matrix(block + ".ffn_gate.weight"@) == Ok::<_, Seq<char>>(layer.gate_proj)
            &&& matrix(block + ".ffn_up.weight"@) == Ok::<_, Seq<char>>(layer.up_proj)
            &&& matrix(block + ".ffn_down.weight"@) == Ok::<_, Seq<char>>(layer.down_proj)
        }),
{
    let config = gguf_model(file, projection_backend)->Ok_0.config;
    lemma_layers_are_loaded(
        &file,
        gguf_names(),
        config,
        config.num_hidden_layers as nat,
        index,
    );
}

/// The embedding, the last norm and the head of a model that was loaded from a
/// GGUF file are those that the file holds under their names: one row for each
/// token, as wide as the hidden state. Where the file has no matrix for the
/// output, the model has no head.
pub proof fn gguf_ends_are_named_tensors(
    file: GgufFile,
    projection_backend: QwenProjectionBackend,
)
    requires
        gguf_model(file, projection_backend) is Ok,
    ensures
        ({
            let model = gguf_model(file, projection_backend)->Ok_0;
            let config = model.config;
            &&& gguf_config(file@) == Ok::<_, Seq<char>>(config)
            &&& model.projection_backend == projection_backend
            &&& file@.q4_0_tensor("token_embd.weight"@) == Ok::<_, Seq<char>>(model.embed_tokens)
            &&& model.embed_tokens.out_dim == config.vocab_size && model.embed_tokens.in_dim
                == config.hidden_size
            &&& file@.f32_tensor("output_norm.weight"@) == Ok::<_, Seq<char>>(model.norm_weight)
            &&& model.norm_weight.len() == config.hidden_size
            &&& match model.lm_head {
                Some(head) => file@.q8_0_tensor("output.weight"@) == Ok::<_, Seq<char>>(head)
                    && head.out_dim == config.vocab_size && head.in_dim == config.hidden_size,
                None => !file@.tensors.dom().contains("output.weight"@),
            }
        }),
{
}

/// The tensors of a model that was loaded from an MLX checkpoint are those that
/// the file holds under their names, and every one of them has the shape that
/// the configuration asks for.
#[verifier::rlimit(50)]
pub proof fn mlx_tensors_are_named_tensors(
    config: QwenRuntimeConfig,
    file: SafeTensorFile,
    projection_backend: QwenProjectionBackend,
    index: nat,
)
    requires
        mlx_model(config, file, projection_backend) is Ok,
        index < config.num_hidden_layers,
    ensures
        ({
            let model = mlx_model(config, file, projection_backend)->Ok_0;
            let layer = model.layers[index as int];
            let block = "model.layers."@ + decimal(index);
            let matrix = |name: Seq<char>| file@.quant_tensor(name);
            let vector = |name: Seq<char>| file@.bf16_tensor(name);
            &&& model.layers.len() == config.num_hidden_layers
            &&& layer_fits(layer, config)
            &&& vector(block + ".input_layernorm.weight"@) == Ok::<_, Seq<char>>(layer.input_norm)
            &&& vector(block + ".post_attention_layernorm.weight"@) == Ok::<_, Seq<char>>(
                layer.post_norm,
            )
            &&& matrix(block + ".self_attn.q_proj"@) == Ok::<_, Seq<char>>(layer.q_proj)
            &&& matrix(block + ".self_attn.k_proj"@) == Ok::<_, Seq<char>>(layer.k_proj)
            &&& matrix(block + ".self_attn.v_proj"@) == Ok::<_, Seq<char>>(layer.v_proj)
            &&& matrix(block + ".self_attn.o_proj"@) == Ok::<_, Seq<char>>(layer.o_proj)
            &&& vector(block + ".self_attn.q_proj.bias"@) == Ok::<_, Seq<char>>(layer.q_bias)
            &&& vector(block + ".self_attn.k_proj.bias"@) == Ok::<_, Seq<char>>(layer.k_bias)
            &&& vector(block + ".self_attn.v_proj.bias"@) == Ok::<_, Seq<char>>(layer.v_bias)
            &&& matrix(block + ".mlp.gate_proj"@) == Ok::<_, Seq<char>>(layer.gate_proj)
            &&& matrix(block + ".mlp.up_proj"@) == Ok::<_, Seq<char>>(layer.up_proj)
            &&& matrix(block + ".mlp.down_proj"@) == Ok::<_, Seq<char>>(layer.down_proj)
        }),
{
    lemma_layers_are_loaded(
        &file,
        mlx_names(),
        config,
        config.num_hidden_layers as nat,
        index,
    );
}

/// The embedding and the last norm of a model that was loaded from an MLX
/// checkpoint are those that the file holds under their names. The embedding is
/// tied, so there is no head.
pub proof fn mlx_ends_are_named_tensors(
    config: QwenRuntimeConfig,
    file: SafeTensorFile,
    projection_backend: QwenProjectionBackend,
)
    requires
        mlx_model(config, file, projection_backend) is Ok,
    ensures
        ({
            let model = mlx_model(config, file, projection_backend)->Ok_0;
            &&& config.tie_word_embeddings
            &&& model.config == config
            &&& model.projection_backend == projection_backend
            &&& file@.quant_tensor("model.embed_tokens"@) == Ok::<_, Seq<char>>(
                model.embed_tokens,
            )
            &&& model.embed_tokens.out_dim == config.vocab_size && model.embed_tokens.in_dim
                == config.hidden_size
            &&& file@.bf16_tensor("model.norm.weight"@) == Ok::<_, Seq<char>>(model.norm_weight)
            &&& model.norm_weight.len() == config.hidden_size
            &&& model.lm_head is None
        }),
{
}

/// In a layer that passes its checks each part takes what the one before it
/// gives: the norms and the projections take the hidden state, the keys and the
/// values are as wide as their heads together, the two halves of the feed-forward
/// part are as wide as what is projected down, and what is added to the hidden
/// state is as wide as that.
#[verifier::rlimit(50)]
pub proof fn parts_of_a_layer_fit_together(layer: LayerFacts, config: QwenRuntimeConfig, index: nat)
    ensures
        layer_refusal(layer, config, index) is None <==> {
            let hidden = config.hidden_size;
            &&& layer.input_norm.len() == hidden && layer.post_norm.len() == hidden
            &&& layer.q_proj.in_dim == hidden && layer.k_proj.in_dim == hidden
                && layer.v_proj.in_dim == hidden && layer.gate_proj.in_dim == hidden
                && layer.up_proj.in_dim == hidden
            &&& layer.q_bias.len() == layer.q_proj.out_dim && layer.k_bias.len()
                == layer.k_proj.out_dim && layer.v_bias.len() == layer.v_proj.out_dim
            &&& layer.q_proj.out_dim == layer.o_proj.in_dim == hidden
            &&& layer.k_proj.out_dim == config.num_key_value_heads * config.head_dim
            &&& layer.v_proj.out_dim == layer.k_proj.out_dim
            &&& layer.gate_proj.out_dim == config.intermediate_size
            &&& layer.up_proj.out_dim == layer.gate_proj.out_dim == layer.down_proj.in_dim
            &&& layer.o_proj.out_dim == hidden && layer.down_proj.out_dim == hidden
        },
        layer_refusal(layer, config, index) is None <==> layer_fits(layer, config),
{
    assert(0 <= config.num_key_value_heads * config.head_dim) by (nonlinear_arith)
        requires
            0 <= config.num_key_value_heads,
            0 <= config.head_dim,
    ;
}

/// A configuration is read of a GGUF file just where the metadata give each of
/// its numbers, with at least one head.
#[verifier::rlimit(50)]
pub proof fn gguf_configs_need_their_metadata(image: GgufImage)
    ensures
        gguf_config(image) is Ok <==> {
            let whole = |key: Seq<char>|
                image.metadata.dom().contains(key) && (image.metadata[key] is U32
                    || image.metadata[key] is U64);
            let single = |key: Seq<char>|
                image.metadata.dom().contains(key) && image.metadata[key] is F32;
            &&& whole("qwen2.embedding_length"@) && whole("qwen2.feed_forward_length"@)
            &&& whole("qwen2.block_count"@) && whole("qwen2.attention.head_count"@)
            &&& whole("qwen2.attention.head_count_kv"@)
            &&& !tells_number(image, "qwen2.attention.head_count"@, 0)
            &&& image.metadata.dom().contains("tokenizer.ggml.tokens"@)
            &&& image.metadata["tokenizer.ggml.tokens"@] is ArrayLen
            &&& single("qwen2.rope.freq_base"@)
            &&& single("qwen2.attention.layer_norm_rms_epsilon"@)
        },
{
}

proof fn lemma_layers_load<C: Checkpoint>(
    file: &C,
    names: NamesView,
    config: QwenRuntimeConfig,
    count: nat,
)
    ensures
        layers_of(file, names, config, count) is Ok <==> forall|index: nat|
            index < count ==> (#[trigger] layer_of(file, names, index)) is Ok && layer_fits(
                layer_of(file, names, index)->Ok_0,
                config,
            ),
    decreases count,
{
    if count > 0 {
        let last = (count - 1) as nat;
        lemma_layers_load(file, names, config, last);
        if layer_of(file, names, last) is Ok {
            parts_of_a_layer_fit_together(layer_of(file, names, last)->Ok_0, config, last);
        }
        if layers_of(file, names, config, count) is Ok {
            assert forall|index: nat| index < count implies (#[trigger] layer_of(
                file,
                names,
                index,
            )) is Ok && layer_fits(layer_of(file, names, index)->Ok_0, config) by {
                if index < last {
                }
            }
        } else if layers_of(file, names, config, last) is Ok {
            assert(layer_of(file, names, last) is Err || !layer_fits(
                layer_of(file, names, last)->Ok_0,
                config,
            ));
        }
    }
}

/// A layer is loaded just where each of its tensors is.
pub proof fn layers_load_where_their_tensors_do<C: Checkpoint>(
    file: &C,
    names: NamesView,
    index: nat,
)
    ensures
        layer_of(file, names, index) is Ok <==> {
            let prefix = names.prefix + decimal(index);
            &&& file.vector(prefix + names.input_norm) is Ok
            &&& file.vector(prefix + names.post_norm) is Ok
            &&& file.matrix(prefix + names.q_proj) is Ok
            &&& file.matrix(prefix + names.k_proj) is Ok
            &&& file.matrix(prefix + names.v_proj) is Ok
            &&& file.matrix(prefix + names.o_proj) is Ok
            &&& file.vector(prefix + names.q_bias) is Ok
            &&& file.vector(prefix + names.k_bias) is Ok
            &&& file.vector(prefix + names.v_bias) is Ok
            &&& file.matrix(prefix + names.gate_proj) is Ok
            &&& file.matrix(prefix + names.up_proj) is Ok
            &&& file.matrix(prefix + names.down_proj) is Ok
        },
{
}

/// A model is loaded of a GGUF file just where its configuration is read, the
/// embedding, the last norm and, where the file has one, the head are there with
/// their shapes, and every layer is loaded and passes its checks.
#[verifier::rlimit(50)]
pub proof fn gguf_models_load_where_all_is_there(
    file: GgufFile,
    projection_backend: QwenProjectionBackend,
)
    ensures
        gguf_model(file, projection_backend) is Ok <==> {
            let image = file@;
            let config = gguf_config(image)->Ok_0;
            let embedding = image.q4_0_tensor("token_embd.weight"@);
            let norm = image.f32_tensor("output_norm.weight"@);
            let head = image.q8_0_tensor("output.weight"@);
            &&& gguf_config(image) is Ok
            &&& embedding is Ok && embedding->Ok_0.out_dim == config.vocab_size
                && embedding->Ok_0.in_dim == config.hidden_size
            &&& norm is Ok && norm->Ok_0.len() == config.hidden_size
            &&& image.tensors.dom().contains("output.weight"@) ==> head is Ok
                && head->Ok_0.out_dim == config.vocab_size && head->Ok_0.in_dim
                == config.hidden_size
            &&& forall|index: nat|
                index < config.num_hidden_layers ==> (#[trigger] layer_of(
                    &file,
                    gguf_names(),
                    index,
                )) is Ok && layer_fits(layer_of(&file, gguf_names(), index)->Ok_0, config)
        },
{
    let config = gguf_config(file@)->Ok_0;
    lemma_layers_load(&file, gguf_names(), config, config.num_hidden_layers as nat);
}

/// A model is loaded of an MLX checkpoint just where its embedding is tied, the
/// embedding and the last norm are there with their shapes, and every layer is
/// loaded and passes its checks.
pub proof fn mlx_models_load_where_all_is_there(
    config: QwenRuntimeConfig,
    file: SafeTensorFile,
    projection_backend: QwenProjectionBackend,
)
    ensures
        mlx_model(config, file, projection_backend) is Ok <==> {
            let embedding = file@.quant_tensor("model.embed_tokens"@);
            let norm = file@.bf16_tensor("model.norm.weight"@);
            &&& config.tie_word_embeddings
            &&& embedding is Ok && embedding->Ok_0.out_dim == config.vocab_size
                && embedding->Ok_0.in_dim == config.hidden_size
            &&& norm is Ok && norm->Ok_0.len() == config.hidden_size
            &&& forall|index: nat|
                index < config.num_hidden_layers ==> (#[trigger] layer_of(
                    &file,
                    mlx_names(),
                    index,
                )) is Ok && layer_fits(layer_of(&file, mlx_names(), index)->Ok_0, config)
        },
{
    lemma_layers_load(&file, mlx_names(), config, config.num_hidden_layers as nat);
}

} // verus!
