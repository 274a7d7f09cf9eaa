//! What the GPU is asked to do for one decoded token: which kernels run in
//! which order, on which buffers, with which numbers and in which grids.

use crate::error::{config_error, config_outcome, Fault, TinyAgentError};
use crate::hf_config::QwenRuntimeConfig;
use crate::model::{ensure_len, kv_dim, len_refusal, ModelImage, QwenRuntimeModel};
use crate::quant::{nibble, QuantEncoding, QuantMatrix, QuantTensor};
use crate::text::{cat2, decimal, views};
use vstd::prelude::*;

verus! {

/// The kernels of the engine.
#[derive(Debug, Clone, Copy, PartialEq, Eq, Structural)]
pub enum Kernel {
    Q4Matvec,
    Q4Matmul,
    Q8Matvec,
    Rmsnorm,
    Rope,
    KvWrite,
    Attention,
    Add,
    Swiglu,
    Argmax,
}

impl Kernel {
    /// The name of the kernel in the shader library.
    pub open spec fn name(self) -> Seq<char> {
        match self {
            Kernel::Q4Matvec => "q4_affine_matvec_f32"@,
            Kernel::Q4Matmul => "q4_affine_matmat_f32"@,
            Kernel::Q8Matvec => "q8_0_matvec_f32"@,
            Kernel::Rmsnorm => "rmsnorm_f32"@,
            Kernel::Rope => "rope_inplace_f32"@,
            Kernel::KvWrite => "write_kv_cache_f32"@,
            Kernel::Attention => "attention_decode_f32"@,
            Kernel::Add => "add_f32"@,
            Kernel::Swiglu => "swiglu_f32"@,
            Kernel::Argmax => "argmax_f32"@,
        }
    }

    pub fn function_name(self) -> (name: &'static str)
        ensures
            name@ == self.name(),
    {
        match self {
            Kernel::Q4Matvec => "q4_affine_matvec_f32",
            Kernel::Q4Matmul => "q4_affine_matmat_f32",
            Kernel::Q8Matvec => "q8_0_matvec_f32",
            Kernel::Rmsnorm => "rmsnorm_f32",
            Kernel::Rope => "rope_inplace_f32",
            Kernel::KvWrite => "write_kv_cache_f32",
            Kernel::Attention => "attention_decode_f32",
            Kernel::Add => "add_f32",
            Kernel::Swiglu => "swiglu_f32",
            Kernel::Argmax => "argmax_f32",
        }
    }

    /// How the kernel is called in the text of an error.
    pub open spec fn described(self) -> Seq<char> {
        match self {
            Kernel::Q4Matvec => "q4 matvec"@,
            Kernel::Q4Matmul => "q4 batched matmul"@,
            Kernel::Q8Matvec => "q8_0 matvec"@,
            _ => self.name(),
        }
    }

    fn description(self) -> (text: &'static str)
        ensures
            text@ == self.described(),
    {
        match self {
            Kernel::Q4Matvec => "q4 matvec",
            Kernel::Q4Matmul => "q4 batched matmul",
            Kernel::Q8Matvec => "q8_0 matvec",
            other => other.function_name(),
        }
    }

    /// Whether the kernel is one of the three projections.
    pub open spec fn is_projection(self) -> bool {
        self == Kernel::Q4Matvec || self == Kernel::Q4Matmul || self == Kernel::Q8Matvec
    }

    /// The fault of a kernel that the shader library does not give.
    pub fn load_failure(self, reason: &str) -> (error: TinyAgentError)
        ensures
            error@ == Fault::Backend(
                if self.is_projection() {
                    "failed to load "@ + self.described() + " kernel: "@ + reason@
                } else {
                    "failed to load Metal kernel "@ + self.described() + ": "@ + reason@
                },
            ),
    {
        match self {
            Kernel::Q4Matvec | Kernel::Q4Matmul | Kernel::Q8Matvec => TinyAgentError::Backend(
                crate::text::cat4("failed to load ", self.description(), " kernel: ", reason),
            ),
            _ => TinyAgentError::Backend(
                crate::text::cat4(
                    "failed to load Metal kernel ",
                    self.description(),
                    ": ",
                    reason,
                ),
            ),
        }
    }

    /// The fault of a kernel that no pipeline can be made for.
    pub fn pipeline_failure(self, reason: &str) -> (error: TinyAgentError)
        ensures
            error@ == Fault::Backend(
                if self.is_projection() {
                    "failed to create "@ + self.described() + " pipeline: "@ + reason@
                } else {
                    "failed to create Metal pipeline "@ + self.described() + ": "@ + reason@
                },
            ),
    {
        match self {
            Kernel::Q4Matvec | Kernel::Q4Matmul | Kernel::Q8Matvec => TinyAgentError::Backend(
                crate::text::cat4("failed to create ", self.description(), " pipeline: ", reason),
            ),
            _ => TinyAgentError::Backend(
                crate::text::cat4(
                    "failed to create Metal pipeline ",
                    self.description(),
                    ": ",
                    reason,
                ),
            ),
        }
    }
}

/// The order in which the kernels are made ready.
pub open spec fn kernel_order() -> Seq<Kernel> {
    seq![
        Kernel::Q4Matvec,
        Kernel::Q4Matmul,
        Kernel::Q8Matvec,
        Kernel::Rmsnorm,
        Kernel::Rope,
        Kernel::KvWrite,
        Kernel::Attention,
        Kernel::Add,
        Kernel::Swiglu,
        Kernel::Argmax,
    ]
}

pub fn runtime_kernels() -> (kernels: Vec<Kernel>)
    ensures
        kernels@ == kernel_order(),
{
    let kernels: Vec<Kernel> = vec![
        Kernel::Q4Matvec,
        Kernel::Q4Matmul,
        Kernel::Q8Matvec,
        Kernel::Rmsnorm,
        Kernel::Rope,
        Kernel::KvWrite,
        Kernel::Attention,
        Kernel::Add,
        Kernel::Swiglu,
        Kernel::Argmax,
    ];
    assert(kernels@ =~= kernel_order());
    kernels
}

/// The projections of a layer.
#[derive(Debug, Clone, Copy, PartialEq, Eq, Hash, Structural)]
pub enum Projection {
    Q,
    K,
    V,
    O,
    Gate,
    Up,
    Down,
}

/// The buffers of an uploaded matrix.
#[derive(Debug, Clone, Copy, PartialEq, Eq, Structural)]
pub enum TensorBuffer {
    Q4Weight,
    Q8Values,
    Scales,
    Biases,
    ZeroLinearBias,
    Dims,
}

/// The buffers that a layer has of its own.
#[derive(Debug, Clone, Copy, PartialEq, Eq, Structural)]
pub enum LayerBuffer {
    InputNormWeight,
    PostNormWeight,
    QBias,
    KBias,
    VBias,
    Keys,
    Values,
}

/// The buffers of a decode step.
#[derive(Debug, Clone, Copy, PartialEq, Eq, Structural)]
pub enum BufferName {
    Hidden,
    AttnInput,
    Q,
    K,
    V,
    Attn,
    AttnOut,
    Residual,
    MlpInput,
    NormedHidden,
    Gate,
    Up,
    Swiglu,
    MlpOut,
    Logits,
    ArgmaxIndex,
    OutputNormWeight,
    Layer { layer: usize, own: LayerBuffer },
    Tensor { layer: usize, projection: Projection, buffer: TensorBuffer },
    Head { buffer: TensorBuffer },
}

/// Floats that a kernel is handed.
#[derive(Debug, Clone, Copy, PartialEq, Eq, Structural)]
pub enum FloatName {
    RmsNormEps,
    RopeTheta,
    /// One over the square root of the head dimension.
    AttentionScale,
}

/// An argument of a kernel: a buffer, words, or a float.
#[derive(Debug, Clone, Copy, PartialEq, Eq, Structural)]
pub enum Argument {
    Buffer(BufferName),
    Word(u32),
    Words2(u32, u32),
    Words3(u32, u32, u32),
    Words4(u32, u32, u32, u32),
    Float(FloatName),
}

/// The extent of a grid.
#[derive(Debug, Clone, Copy, PartialEq, Eq, Structural)]
pub struct Size {
    pub width: u64,
    pub height: u64,
    pub depth: u64,
}

/// A kernel with its arguments, in the order of their binding, and its grid of
/// thread groups.
#[derive(Debug)]
pub struct KernelCall {
    pub kernel: Kernel,
    pub arguments: Vec<Argument>,
    pub groups: Size,
    pub threads: Size,
}

/// The mathematical value of a `KernelCall`.
#[verifier::ext_equal]
pub struct Call {
    pub kernel: Kernel,
    pub arguments: Seq<Argument>,
    pub groups: Size,
    pub threads: Size,
}

impl View for KernelCall {
    type V = Call;

    open spec fn view(&self) -> Call {
        Call {
            kernel: self.kernel,
            arguments: self.arguments@,
            groups: self.groups,
            threads: self.threads,
        }
    }
}

/// A grid of one dimension.
pub open spec fn line(width: u64) -> Size {
    Size { width, height: 1, depth: 1 }
}

pub fn line_of(width: u64) -> (size: Size)
    ensures
        size == line(width),
{
    Size { width, height: 1, depth: 1 }
}

/// How many parts of `part` cover `len`.
pub open spec fn parts(len: nat, part: nat) -> nat {
    ((len + part - 1) / part as int) as nat
}

/// The least number of parts that cover a length.
pub proof fn parts_cover(len: nat, part: nat)
    requires
        part > 0,
    ensures
        len <= parts(len, part) * part,
        parts(len, part) > 0 ==> (parts(len, part) - 1) * part < len,
{
    let bound = len + part - 1;
    let count = bound / part as int;
    assert(bound - part < count * part <= bound && 0 <= count) by (nonlinear_arith)
        requires
            part > 0,
            bound >= 0,
            count == bound / part as int,
    ;
    assert((count - 1) * part == count * part - part) by (nonlinear_arith);
}

pub fn div_ceil(len: usize, part: usize) -> (count: usize)
    requires
        part > 0,
    ensures
        count == parts(len as nat, part as nat),
{
    let whole: usize = len / part;
    let rest: usize = len % part;
    proof {
        assert(len == whole * part + rest && 0 <= rest < part) by (nonlinear_arith)
            requires
                part > 0,
                whole == len as int / part as int,
                rest == len as int % part as int,
        ;
        let bound = len + part - 1;
        if rest == 0 {
            assert(bound as int / part as int == whole) by (nonlinear_arith)
                requires
                    part > 0,
                    bound == whole * part + part - 1,
            ;
        } else {
            assert(bound as int / part as int == whole + 1) by (nonlinear_arith)
                requires
                    part > 0,
                    0 < rest < part,
                    bound == whole * part + rest + part - 1,
            ;
            assert(whole <= len) by (nonlinear_arith)
                requires
                    part > 0,
                    0 <= whole,
                    len == whole * part + rest,
                    0 <= rest,
            ;
            assert(whole < len) by (nonlinear_arith)
                requires
                    part > 0,
                    0 <= whole,
                    len == whole * part + rest,
                    0 < rest,
            ;
        }
    }
    if rest == 0 {
        whole
    } else {
        whole + 1
    }
}

/// Which buffers of a matrix were uploaded.
#[derive(Debug, Clone, Copy, PartialEq, Eq, Structural)]
pub struct Upload {
    pub q4_weight: bool,
    pub q8_values: bool,
    pub biases: bool,
}

/// What an upload of a matrix holds: words and biases for four-bit numbers,
/// bytes for the others.
pub open spec fn upload_of(encoding: QuantEncoding) -> Upload {
    let packed = encoding == QuantEncoding::AffineQ4;
    Upload { q4_weight: packed, q8_values: !packed, biases: packed }
}

/// The numbers that a kernel reads of a matrix.
pub open spec fn upload_dims(matrix: QuantMatrix) -> Seq<u32> {
    seq![
        matrix.out_dim as u32,
        matrix.in_dim as u32,
        matrix.packed_per_row as u32,
        matrix.groups_per_row as u32,
        matrix.group_size as u32,
    ]
}

/// What is uploaded of a matrix: which buffers, the numbers that a kernel
/// reads, the length of a bias of zeros and the bytes of the output.
#[derive(Debug)]
pub struct UploadPlan {
    pub upload: Upload,
    pub dims: Vec<u32>,
    pub zero_bias_len: usize,
    pub output_bytes: u64,
}

impl QuantTensor {
    pub fn upload_metal(&self) -> (plan: UploadPlan)
        requires
            self.out_dim * 4 <= usize::MAX,
        ensures
            plan.upload == upload_of(self.encoding),
            plan.dims@ == upload_dims(self@),
            plan.zero_bias_len == self.out_dim,
            plan.output_bytes == 4 * self.out_dim,
    {
        let packed: bool = self.encoding == QuantEncoding::AffineQ4;
        let dims: Vec<u32> = vec![
            self.out_dim as u32,
            self.in_dim as u32,
            self.packed_per_row as u32,
            self.groups_per_row as u32,
            self.group_size as u32,
        ];
        assert(dims@ =~= upload_dims(self@));
        UploadPlan {
            upload: Upload { q4_weight: packed, q8_values: !packed, biases: packed },
            dims,
            zero_bias_len: self.out_dim,
            output_bytes: (self.out_dim * 4) as u64,
        }
    }
}

/// With the numbers that are uploaded of it, a kernel finds in the buffers of a
/// matrix the number at each place and the scale of each place: the numbers are
/// the rows, the columns, the words of a row, the groups of a row and the columns
/// of a group.
pub proof fn uploaded_dims_find_the_numbers(matrix: QuantMatrix, row: int, input: int)
    requires
        matrix.out_dim <= u32::MAX,
        matrix.in_dim <= u32::MAX,
        matrix.packed_per_row <= u32::MAX,
        matrix.groups_per_row <= u32::MAX,
        matrix.group_size <= u32::MAX,
        0 <= row < matrix.out_dim,
        0 <= input < matrix.in_dim,
    ensures
        ({
            let dims = upload_dims(matrix);
            &&& dims.len() == 5
            &&& row < dims[0] && dims[0] == matrix.out_dim
            &&& input < dims[1] && dims[1] == matrix.in_dim
            &&& matrix.code(row, input) == nibble(
                matrix.weight[row * dims[2] + input / 8] as nat,
                (input % 8) as nat,
            )
            &&& matrix.byte(row, input) == matrix.q8_values[row * dims[1] + input]
            &&& matrix.group(row, input) == row * dims[3] + input / dims[4] as int
        }),
{
}

/// What is uploaded of a matrix is what the kernel for its encoding is handed,
/// and nothing that the kernel for the other is.
pub proof fn uploads_suit_their_kernel(name: Seq<char>, encoding: QuantEncoding)
    ensures
        q4_refusal(name, Some(upload_of(encoding))) is None <==> encoding
            == QuantEncoding::AffineQ4,
        upload_of(encoding).q8_values <==> encoding == QuantEncoding::GgufQ8_0,
        q4_refusal(name, None) is Some,
{
}

/// The uploads of a layer's matrices; a matrix that was not uploaded has none.
#[derive(Debug, Clone, Copy, PartialEq, Eq, Structural)]
pub struct LayerUploads {
    pub q: Option<Upload>,
    pub k: Option<Upload>,
    pub v: Option<Upload>,
    pub o: Option<Upload>,
    pub gate: Option<Upload>,
    pub up: Option<Upload>,
    pub down: Option<Upload>,
}

/// What keeps a four-bit matrix from being multiplied.
pub open spec fn q4_refusal(name: Seq<char>, upload: Option<Upload>) -> Option<Seq<char>> {
    match upload {
        None => Some(name + " has not been uploaded to Metal"@),
        Some(upload) => if !upload.q4_weight {
            Some(name + " is missing q4 Metal weight buffer"@)
        } else if !upload.biases {
            Some(name + " is missing q4 Metal bias buffer"@)
        } else {
            None
        },
    }
}

pub fn check_q4(name: &str, upload: &Option<Upload>) -> (result: Result<(), TinyAgentError>)
    ensures
        config_outcome(result, crate::quant::checked(q4_refusal(name@, *upload))),
{
    match upload {
        None => Err(TinyAgentError::Configuration(cat2(name, " has not been uploaded to Metal"))),
        Some(upload) => if !upload.q4_weight {
            Err(TinyAgentError::Configuration(cat2(name, " is missing q4 Metal weight buffer")))
        } else if !upload.biases {
            Err(TinyAgentError::Configuration(cat2(name, " is missing q4 Metal bias buffer")))
        } else {
            Ok(())
        },
    }
}

/// A projection of a layer by a four-bit matrix.
pub open spec fn q4_call(
    layer: usize,
    projection: Projection,
    input: BufferName,
    linear_bias: BufferName,
    output: BufferName,
    out_dim: nat,
) -> Call {
    let part = |buffer: TensorBuffer|
        Argument::Buffer(BufferName::Tensor { layer, projection, buffer });
    Call {
        kernel: Kernel::Q4Matvec,
        arguments: seq![
            Argument::Buffer(input),
            part(TensorBuffer::Q4Weight),
            part(TensorBuffer::Scales),
            part(TensorBuffer::Biases),
            Argument::Buffer(linear_bias),
            Argument::Buffer(output),
            part(TensorBuffer::Dims),
        ],
        groups: line(parts(out_dim, 8) as u64),
        threads: line(128),
    }
}

fn encode_q4(
    layer: usize,
    projection: Projection,
    input: BufferName,
    linear_bias: BufferName,
    output: BufferName,
    out_dim: usize,
) -> (call: KernelCall)
    ensures
        call@ == q4_call(layer, projection, input, linear_bias, output, out_dim as nat),
{
    let arguments: Vec<Argument> = vec![
        Argument::Buffer(input),
        Argument::Buffer(
            BufferName::Tensor { layer, projection, buffer: TensorBuffer::Q4Weight },
        ),
        Argument::Buffer(BufferName::Tensor { layer, projection, buffer: TensorBuffer::Scales }),
        Argument::Buffer(BufferName::Tensor { layer, projection, buffer: TensorBuffer::Biases }),
        Argument::Buffer(linear_bias),
        Argument::Buffer(output),
        Argument::Buffer(BufferName::Tensor { layer, projection, buffer: TensorBuffer::Dims }),
    ];
    let call = KernelCall {
        kernel: Kernel::Q4Matvec,
        arguments,
        groups: line_of(div_ceil(out_dim, 8) as u64),
        threads: line_of(128),
    };
    assert(call@ =~= q4_call(layer, projection, input, linear_bias, output, out_dim as nat));
    call
}

pub open spec fn rmsnorm_call(
    input: BufferName,
    weight: BufferName,
    output: BufferName,
    len: usize,
) -> Call {
    Call {
        kernel: Kernel::Rmsnorm,
        arguments: seq![
            Argument::Buffer(input),
            Argument::Buffer(weight),
            Argument::Buffer(output),
            Argument::Word(len as u32),
            Argument::Float(FloatName::RmsNormEps),
        ],
        groups: line(1),
        threads: line(256),
    }
}

fn encode_rmsnorm(input: BufferName, weight: BufferName, output: BufferName, len: usize) -> (call:
    KernelCall)
    ensures
        call@ == rmsnorm_call(input, weight, output, len),
{
    let arguments: Vec<Argument> = vec![
        Argument::Buffer(input),
        Argument::Buffer(weight),
        Argument::Buffer(output),
        Argument::Word(len as u32),
        Argument::Float(FloatName::RmsNormEps),
    ];
    let call = KernelCall {
        kernel: Kernel::Rmsnorm,
        arguments,
        groups: line_of(1),
        threads: line_of(256),
    };
    assert(call@ =~= rmsnorm_call(input, weight, output, len));
    call
}

pub open spec fn rope_call(values: BufferName, heads: usize, head_dim: usize, position: usize) -> Call {
    Call {
        kernel: Kernel::Rope,
        arguments: seq![
            Argument::Buffer(values),
            Argument::Words3(heads as u32, head_dim as u32, position as u32),
            Argument::Float(FloatName::RopeTheta),
        ],
        groups: line(parts((heads * head_dim / 2) as nat, 256) as u64),
        threads: line(256),
    }
}

fn encode_rope(values: BufferName, heads: usize, head_dim: usize, position: usize) -> (call:
    KernelCall)
    requires
        heads * head_dim <= usize::MAX,
    ensures
        call@ == rope_call(values, heads, head_dim, position),
{
    let arguments: Vec<Argument> = vec![
        Argument::Buffer(values),
        Argument::Words3(heads as u32, head_dim as u32, position as u32),
        Argument::Float(FloatName::RopeTheta),
    ];
    let call = KernelCall {
        kernel: Kernel::Rope,
        arguments,
        groups: line_of(div_ceil(heads * head_dim / 2, 256) as u64),
        threads: line_of(256),
    };
    assert(call@ =~= rope_call(values, heads, head_dim, position));
    call
}

pub open spec fn kv_write_call(layer: usize, position: usize, width: usize) -> Call {
    Call {
        kernel: Kernel::KvWrite,
        arguments: seq![
            Argument::Buffer(BufferName::K),
            Argument::Buffer(BufferName::V),
            Argument::Buffer(BufferName::Layer { layer, own: LayerBuffer::Keys }),
            Argument::Buffer(BufferName::Layer { layer, own: LayerBuffer::Values }),
            Argument::Words2(position as u32, width as u32),
        ],
        groups: line(parts(width as nat, 256) as u64),
        threads: line(256),
    }
}

fn encode_kv_write(layer: usize, position: usize, width: usize) -> (call: KernelCall)
    ensures
        call@ == kv_write_call(layer, position, width),
{
    let arguments: Vec<Argument> = vec![
        Argument::Buffer(BufferName::K),
        Argument::Buffer(BufferName::V),
        Argument::Buffer(BufferName::Layer { layer, own: LayerBuffer::Keys }),
        Argument::Buffer(BufferName::Layer { layer, own: LayerBuffer::Values }),
        Argument::Words2(position as u32, width as u32),
    ];
    let call = KernelCall {
        kernel: Kernel::KvWrite,
        arguments,
        groups: line_of(div_ceil(width, 256) as u64),
        threads: line_of(256),
    };
    assert(call@ =~= kv_write_call(layer, position, width));
    call
}

pub open spec fn attention_call(layer: usize, position: usize, config: QwenRuntimeConfig) -> Call {
    Call {
        kernel: Kernel::Attention,
        arguments: seq![
            Argument::Buffer(BufferName::Q),
            Argument::Buffer(BufferName::Layer { layer, own: LayerBuffer::Keys }),
            Argument::Buffer(BufferName::Layer { layer, own: LayerBuffer::Values }),
            Argument::Buffer(BufferName::Attn),
            Argument::Words4(
                position as u32,
                config.num_attention_heads as u32,
                config.num_key_value_heads as u32,
                config.head_dim as u32,
            ),
            Argument::Float(FloatName::AttentionScale),
        ],
        groups: line(config.num_attention_heads as u64),
        threads: line(128),
    }
}

fn encode_attention(layer: usize, position: usize, config: &QwenRuntimeConfig) -> (call: KernelCall)
    ensures
        call@ == attention_call(layer, position, *config),
{
    let arguments: Vec<Argument> = vec![
        Argument::Buffer(BufferName::Q),
        Argument::Buffer(BufferName::Layer { layer, own: LayerBuffer::Keys }),
        Argument::Buffer(BufferName::Layer { layer, own: LayerBuffer::Values }),
        Argument::Buffer(BufferName::Attn),
        Argument::Words4(
            position as u32,
            config.num_attention_heads as u32,
            config.num_key_value_heads as u32,
            config.head_dim as u32,
        ),
        Argument::Float(FloatName::AttentionScale),
    ];
    let call = KernelCall {
        kernel: Kernel::Attention,
        arguments,
        groups: line_of(config.num_attention_heads as u64),
        threads: line_of(128),
    };
    assert(call@ =~= attention_call(layer, position, *config));
    call
}

/// A kernel that combines two vectors number by number.
pub open spec fn pairwise_call(
    kernel: Kernel,
    left: BufferName,
    right: BufferName,
    output: BufferName,
    len: usize,
) -> Call {
    Call {
        kernel,
        arguments: seq![
            Argument::Buffer(left),
            Argument::Buffer(right),
            Argument::Buffer(output),
            Argument::Word(len as u32),
        ],
        groups: line(parts(len as nat, 256) as u64),
        threads: line(256),
    }
}

fn encode_pairwise(
    kernel: Kernel,
    left: BufferName,
    right: BufferName,
    output: BufferName,
    len: usize,
) -> (call: KernelCall)
    ensures
        call@ == pairwise_call(kernel, left, right, output, len),
{
    let arguments: Vec<Argument> = vec![
        Argument::Buffer(left),
        Argument::Buffer(right),
        Argument::Buffer(output),
        Argument::Word(len as u32),
    ];
    let call = KernelCall {
        kernel,
        arguments,
        groups: line_of(div_ceil(len, 256) as u64),
        threads: line_of(256),
    };
    assert(call@ =~= pairwise_call(kernel, left, right, output, len));
    call
}

/// The bias of zeros of a matrix.
pub open spec fn zero_bias(layer: usize, projection: Projection) -> BufferName {
    BufferName::Tensor { layer, projection, buffer: TensorBuffer::ZeroLinearBias }
}

/// The calls of a layer: attention over the cache, then the feed-forward part,
/// each added to what came in.
pub open spec fn layer_calls(model: ModelImage, index: int, position: usize) -> Seq<Call> {
    let config = model.config;
    let layer = index as usize;
    let facts = model.layers[index];
    let own = |buffer: LayerBuffer| BufferName::Layer { layer, own: buffer };
    seq![
        rmsnorm_call(
            BufferName::Hidden,
            own(LayerBuffer::InputNormWeight),
            BufferName::AttnInput,
            config.hidden_size,
        ),
        q4_call(
            layer,
            Projection::Q,
            BufferName::AttnInput,
            own(LayerBuffer::QBias),
            BufferName::Q,
            facts.q_proj.out_dim as nat,
        ),
        q4_call(
            layer,
            Projection::K,
            BufferName::AttnInput,
            own(LayerBuffer::KBias),
            BufferName::K,
            facts.k_proj.out_dim as nat,
        ),
        q4_call(
            layer,
            Projection::V,
            BufferName::AttnInput,
            own(LayerBuffer::VBias),
            BufferName::V,
            facts.v_proj.out_dim as nat,
        ),
        rope_call(BufferName::Q, config.num_attention_heads, config.head_dim, position),
        rope_call(BufferName::K, config.num_key_value_heads, config.head_dim, position),
        kv_write_call(layer, position, kv_dim(config) as usize),
        attention_call(layer, position, config),
        q4_call(
            layer,
            Projection::O,
            BufferName::Attn,
            zero_bias(layer, Projection::O),
            BufferName::AttnOut,
            facts.o_proj.out_dim as nat,
        ),
        pairwise_call(
            Kernel::Add,
            BufferName::Hidden,
            BufferName::AttnOut,
            BufferName::Residual,
            config.hidden_size,
        ),
        rmsnorm_call(
            BufferName::Residual,
            own(LayerBuffer::PostNormWeight),
            BufferName::MlpInput,
            config.hidden_size,
        ),
        q4_call(
            layer,
            Projection::Gate,
            BufferName::MlpInput,
            zero_bias(layer, Projection::Gate),
            BufferName::Gate,
            facts.gate_proj.out_dim as nat,
        ),
        q4_call(
            layer,
            Projection::Up,
            BufferName::MlpInput,
            zero_bias(layer, Projection::Up),
            BufferName::Up,
            facts.up_proj.out_dim as nat,
        ),
        pairwise_call(
            Kernel::Swiglu,
            BufferName::Gate,
            BufferName::Up,
            BufferName::Swiglu,
            config.intermediate_size,
        ),
        q4_call(
            layer,
            Projection::Down,
            BufferName::Swiglu,
            zero_bias(layer, Projection::Down),
            BufferName::MlpOut,
            facts.down_proj.out_dim as nat,
        ),
        pairwise_call(
            Kernel::Add,
            BufferName::Residual,
            BufferName::MlpOut,
            BufferName::Hidden,
            config.hidden_size,
        ),
    ]
}

/// What keeps a layer from being run, in the order in which it is noticed.
pub open spec fn layer_obstacle(model: ModelImage, index: int, uploads: LayerUploads) -> Option<
    Seq<char>,
> {
    let facts = model.layers[index];
    if uploads.o is None {
        Some("o_proj missing Metal buffers"@)
    } else if uploads.gate is None {
        Some("gate_proj missing Metal buffers"@)
    } else if uploads.up is None {
        Some("up_proj missing Metal buffers"@)
    } else if uploads.down is None {
        Some("down_proj missing Metal buffers"@)
    } else if q4_refusal(facts.q_proj.name, uploads.q) is Some {
        q4_refusal(facts.q_proj.name, uploads.q)
    } else if q4_refusal(facts.k_proj.name, uploads.k) is Some {
        q4_refusal(facts.k_proj.name, uploads.k)
    } else if q4_refusal(facts.v_proj.name, uploads.v) is Some {
        q4_refusal(facts.v_proj.name, uploads.v)
    } else if q4_refusal(facts.o_proj.name, uploads.o) is Some {
        q4_refusal(facts.o_proj.name, uploads.o)
    } else if q4_refusal(facts.gate_proj.name, uploads.gate) is Some {
        q4_refusal(facts.gate_proj.name, uploads.gate)
    } else if q4_refusal(facts.up_proj.name, uploads.up) is Some {
        q4_refusal(facts.up_proj.name, uploads.up)
    } else {
        q4_refusal(facts.down_proj.name, uploads.down)
    }
}

/// The calls of the first `count` layers.
pub open spec fn layers_calls(
    model: ModelImage,
    uploads: Seq<LayerUploads>,
    position: usize,
    count: int,
) -> Result<Seq<Call>, Seq<char>>
    decreases count,
{
    if count <= 0 {
        Ok(Seq::empty())
    } else {
        match layers_calls(model, uploads, position, count - 1) {
            Err(text) => Err(text),
            Ok(calls) => match layer_obstacle(model, count - 1, uploads[count - 1]) {
                Some(text) => Err(text),
                None => Ok(calls + layer_calls(model, count - 1, position)),
            },
        }
    }
}

/// The calls that decode a token, or what keeps it from being decoded.
pub open spec fn decode_calls(
    model: ModelImage,
    uploads: Seq<LayerUploads>,
    has_runtime: bool,
    has_buffers: bool,
    token_id: u32,
    position: usize,
) -> Result<Seq<Call>, Seq<char>> {
    let row = token_id as usize;
    let embedding = model.embed_tokens;
    if row >= embedding.out_dim {
        Err(
            embedding.name + " row "@ + decimal(row as nat) + " out of range "@ + decimal(
                embedding.out_dim as nat,
            ),
        )
    } else if len_refusal(
        "embedding"@,
        embedding.in_dim as nat,
        model.config.hidden_size as nat,
    ) is Some {
        Err(
            len_refusal(
                "embedding"@,
                embedding.in_dim as nat,
                model.config.hidden_size as nat,
            )->0,
        )
    } else if !has_runtime {
        Err("Metal decode path missing runtime"@)
    } else if !has_buffers {
        Err("Metal decode path missing buffers"@)
    } else {
        layers_calls(model, uploads, position, model.layers.len() as int)
    }
}

proof fn lemma_layers_calls_fail(
    model: ModelImage,
    uploads: Seq<LayerUploads>,
    position: usize,
    fewer: int,
    more: int,
)
    requires
        0 <= fewer <= more,
        layers_calls(model, uploads, position, fewer) is Err,
    ensures
        layers_calls(model, uploads, position, more) == layers_calls(
            model,
            uploads,
            position,
            fewer,
        ),
    decreases more,
{
    if fewer < more {
        lemma_layers_calls_fail(model, uploads, position, fewer, more - 1);
    }
}

impl QwenRuntimeModel {
    /// Whether a layer can be run.
    fn check_layer(&self, index: usize, uploads: &LayerUploads) -> (result: Result<
        (),
        TinyAgentError,
    >)
        requires
            index < self.layers@.len(),
        ensures
            config_outcome(
                result,
                crate::quant::checked(layer_obstacle(self@, index as int, *uploads)),
            ),
    {
        let layer = &self.layers[index];
        assert(self@.layers[index as int] == self.layers@[index as int]@);
        if uploads.o.is_none() {
            return Err(config_error("o_proj missing Metal buffers"));
        }
        if uploads.gate.is_none() {
            return Err(config_error("gate_proj missing Metal buffers"));
        }
        if uploads.up.is_none() {
            return Err(config_error("up_proj missing Metal buffers"));
        }
        if uploads.down.is_none() {
            return Err(config_error("down_proj missing Metal buffers"));
        }
        if let Err(error) = check_q4(layer.q_proj.name.as_str(), &uploads.q) {
            return Err(error);
        }
        if let Err(error) = check_q4(layer.k_proj.name.as_str(), &uploads.k) {
            return Err(error);
        }
        if let Err(error) = check_q4(layer.v_proj.name.as_str(), &uploads.v) {
            return Err(error);
        }
        if let Err(error) = check_q4(layer.o_proj.name.as_str(), &uploads.o) {
            return Err(error);
        }
        if let Err(error) = check_q4(layer.gate_proj.name.as_str(), &uploads.gate) {
            return Err(error);
        }
        if let Err(error) = check_q4(layer.up_proj.name.as_str(), &uploads.up) {
            return Err(error);
        }
        check_q4(layer.down_proj.name.as_str(), &uploads.down)
    }

    /// Appends the calls of a layer.
    fn plan_layer(&self, index: usize, position: usize, calls: &mut Vec<KernelCall>)
        requires
            index < self.layers@.len(),
            kv_dim(self.config) <= usize::MAX,
            self.config.num_attention_heads * self.config.head_dim <= usize::MAX,
        ensures
            views(final(calls)@) == views(old(calls)@) + layer_calls(
                self@,
                index as int,
                position,
            ),
    {
        let config = &self.config;
        let layer = &self.layers[index];
        let hidden: usize = config.hidden_size;
        let width: usize = config.num_key_value_heads * config.head_dim;
        let ghost before = calls@;
        calls.push(
            encode_rmsnorm(
                BufferName::Hidden,
                BufferName::Layer { layer: index, own: LayerBuffer::InputNormWeight },
                BufferName::AttnInput,
                hidden,
            ),
        );
        calls.push(
            encode_q4(
                index,
                Projection::Q,
                BufferName::AttnInput,
                BufferName::Layer { layer: index, own: LayerBuffer::QBias },
                BufferName::Q,
                layer.q_proj.out_dim,
            ),
        );
        calls.push(
            encode_q4(
                index,
                Projection::K,
                BufferName::AttnInput,
                BufferName::Layer { layer: index, own: LayerBuffer::KBias },
                BufferName::K,
                layer.k_proj.out_dim,
            ),
        );
        calls.push(
            encode_q4(
                index,
                Projection::V,
                BufferName::AttnInput,
                BufferName::Layer { layer: index, own: LayerBuffer::VBias },
                BufferName::V,
                layer.v_proj.out_dim,
            ),
        );
        calls.push(
            encode_rope(BufferName::Q, config.num_attention_heads, config.head_dim, position),
        );
        calls.push(
            encode_rope(BufferName::K, config.num_key_value_heads, config.head_dim, position),
        );
        calls.push(encode_kv_write(index, position, width));
        calls.push(encode_attention(index, position, config));
        calls.push(
            encode_q4(
                index,
                Projection::O,
                BufferName::Attn,
                BufferName::Tensor {
                    layer: index,
                    projection: Projection::O,
                    buffer: TensorBuffer::ZeroLinearBias,
                },
                BufferName::AttnOut,
                layer.o_proj.out_dim,
            ),
        );
        calls.push(
            encode_pairwise(
                Kernel::Add,
                BufferName::Hidden,
                BufferName::AttnOut,
                BufferName::Residual,
                hidden,
            ),
        );
        calls.push(
            encode_rmsnorm(
                BufferName::Residual,
                BufferName::Layer { layer: index, own: LayerBuffer::PostNormWeight },
                BufferName::MlpInput,
                hidden,
            ),
        );
        calls.push(
            encode_q4(
                index,
                Projection::Gate,
                BufferName::MlpInput,
                BufferName::Tensor {
                    layer: index,
                    projection: Projection::Gate,
                    buffer: TensorBuffer::ZeroLinearBias,
                },
                BufferName::Gate,
                layer.gate_proj.out_dim,
            ),
        );
        calls.push(
            encode_q4(
                index,
                Projection::Up,
                BufferName::MlpInput,
                BufferName::Tensor {
                    layer: index,
                    projection: Projection::Up,
                    buffer: TensorBuffer::ZeroLinearBias,
                },
                BufferName::Up,
                layer.up_proj.out_dim,
            ),
        );
        calls.push(
            encode_pairwise(
                Kernel::Swiglu,
                BufferName::Gate,
                BufferName::Up,
                BufferName::Swiglu,
                config.intermediate_size,
            ),
        );
        calls.push(
            encode_q4(
                index,
                Projection::Down,
                BufferName::Swiglu,
                BufferName::Tensor {
                    layer: index,
                    projection: Projection::Down,
                    buffer: TensorBuffer::ZeroLinearBias,
                },
                BufferName::MlpOut,
                layer.down_proj.out_dim,
            ),
        );
        calls.push(
            encode_pairwise(
                Kernel::Add,
                BufferName::Residual,
                BufferName::MlpOut,
                BufferName::Hidden,
                hidden,
            ),
        );
        proof {
            assert(self@.layers[index as int] == self.layers@[index as int]@);
            assert(views(calls@) =~= views(before) + layer_calls(self@, index as int, position));
        }
    }

    /// The calls that decode a token, which carry its embedding through all
    /// layers.
    pub fn forward_hidden_decode_metal(
        &self,
        uploads: &Vec<LayerUploads>,
        has_runtime: bool,
        has_buffers: bool,
        token_id: u32,
        position: usize,
    ) -> (result: Result<Vec<KernelCall>, TinyAgentError>)
        requires
            uploads@.len() == self.layers@.len(),
            kv_dim(self.config) <= usize::MAX,
            self.config.num_attention_heads * self.config.head_dim <= usize::MAX,
        ensures
            match result {
                Ok(calls) => decode_calls(
                    self@,
                    uploads@,
                    has_runtime,
                    has_buffers,
                    token_id,
                    position,
                ) == Ok::<Seq<Call>, Seq<char>>(views(calls@)),
                Err(error) => error@ is Configuration && decode_calls(
                    self@,
                    uploads@,
                    has_runtime,
                    has_buffers,
                    token_id,
                    position,
                ) == Err::<Seq<Call>, Seq<char>>(error@->Configuration_0),
            },
    {
        if let Err(error) = self.embed_tokens.check_row(token_id as usize) {
            return Err(error);
        }
        if let Err(error) = ensure_len(
            "embedding",
            self.embed_tokens.in_dim,
            self.config.hidden_size,
        ) {
            return Err(error);
        }
        if !has_runtime {
            return Err(config_error("Metal decode path missing runtime"));
        }
        if !has_buffers {
            return Err(config_error("Metal decode path missing buffers"));
        }
        let mut calls: Vec<KernelCall> = Vec::new();
        let mut index: usize = 0;
        assert(views(calls@) =~= Seq::<Call>::empty());
        while index < self.layers.len()
            invariant
                index <= self.layers@.len(),
                uploads@.len() == self.layers@.len(),
                kv_dim(self.config) <= usize::MAX,
                self.config.num_attention_heads * self.config.head_dim <= usize::MAX,
                self@.layers.len() == self.layers@.len(),
                layers_calls(self@, uploads@, position, index as int) == Ok::<
                    Seq<Call>,
                    Seq<char>,
                >(views(calls@)),
                decode_calls(self@, uploads@, has_runtime, has_buffers, token_id, position)
                    == layers_calls(self@, uploads@, position, self@.layers.len() as int),
            decreases self.layers@.len() - index,
        {
            if let Err(error) = self.check_layer(index, &uploads[index]) {
                proof {
                    lemma_layers_calls_fail(
                        self@,
                        uploads@,
                        position,
                        index + 1,
                        self@.layers.len() as int,
                    );
                }
                return Err(error);
            }
            self.plan_layer(index, position, &mut calls);
            index = index + 1;
        }
        Ok(calls)
    }
}

/// Each layer hands the next one what it left in the buffer it reads first:
/// the first call of a layer reads the hidden state, the last one writes it.
pub proof fn layer_calls_chain(model: ModelImage, index: int, position: usize)
    ensures
        layer_calls(model, index, position).len() == 16,
        layer_calls(model, index, position).first().arguments[0] == Argument::Buffer(
            BufferName::Hidden,
        ),
        layer_calls(model, index, position).last().arguments[2] == Argument::Buffer(
            BufferName::Hidden,
        ),
{
}

/// Which arguments a kernel writes.
pub open spec fn writes_at(kernel: Kernel, place: int) -> bool {
    match kernel {
        Kernel::Q4Matvec | Kernel::Q4Matmul => place == 5,
        Kernel::Q8Matvec => place == 4,
        Kernel::Rmsnorm | Kernel::Add | Kernel::Swiglu => place == 2,
        Kernel::Rope => place == 0,
        Kernel::KvWrite => place == 2 || place == 3,
        Kernel::Attention => place == 3,
        Kernel::Argmax => place == 1,
    }
}

/// Which arguments a kernel reads: those that it does not write, and the
/// vector that it rotates in place.
pub open spec fn reads_at(kernel: Kernel, place: int) -> bool {
    kernel == Kernel::Rope || !writes_at(kernel, place)
}

/// A call writes a buffer.
pub open spec fn writes(call: Call, name: BufferName) -> bool {
    exists|place: int|
        0 <= place < call.arguments.len() && writes_at(call.kernel, place)
            && #[trigger] call.arguments[place] == Argument::Buffer(name)
}

/// A call reads a buffer.
pub open spec fn reads(call: Call, name: BufferName) -> bool {
    exists|place: int|
        0 <= place < call.arguments.len() && reads_at(call.kernel, place)
            && #[trigger] call.arguments[place] == Argument::Buffer(name)
}

/// What a decode step finds filled: the hidden state, the caches, and all that
/// belongs to the model.
pub open spec fn is_given(name: BufferName) -> bool {
    name == BufferName::Hidden || name is Layer || name is Tensor || name is Head
        || name == BufferName::OutputNormWeight
}

/// What a decode step may write: its own working buffers, and the keys and the
/// values of a layer.
pub open spec fn is_working(name: BufferName) -> bool {
    match name {
        BufferName::Layer { own, .. } => own == LayerBuffer::Keys || own == LayerBuffer::Values,
        BufferName::Tensor { .. } | BufferName::Head { .. } | BufferName::OutputNormWeight => false,
        _ => true,
    }
}

/// Every buffer that a call reads was given or was written by an earlier call.
pub open spec fn reads_what_was_written(calls: Seq<Call>) -> bool {
    forall|k: int, name: BufferName|
        0 <= k < calls.len() && #[trigger] reads(calls[k], name) && !is_given(name) ==> exists|j: int|
            0 <= j < k && writes(#[trigger] calls[j], name)
}

/// No call writes what belongs to the model.
pub open spec fn keeps_the_model(calls: Seq<Call>) -> bool {
    forall|k: int, name: BufferName|
        0 <= k < calls.len() && #[trigger] writes(calls[k], name) ==> is_working(name)
}

proof fn lemma_layer_reads(model: ModelImage, index: int, position: usize)
    ensures
        reads_what_was_written(layer_calls(model, index, position)),
        keeps_the_model(layer_calls(model, index, position)),
{
    let calls = layer_calls(model, index, position);
    assert(calls[0].arguments[2] == Argument::Buffer(BufferName::AttnInput));
    assert(calls[1].arguments[5] == Argument::Buffer(BufferName::Q));
    assert(calls[2].arguments[5] == Argument::Buffer(BufferName::K));
    assert(calls[3].arguments[5] == Argument::Buffer(BufferName::V));
    assert(calls[7].arguments[3] == Argument::Buffer(BufferName::Attn));
    assert(calls[8].arguments[5] == Argument::Buffer(BufferName::AttnOut));
    assert(calls[9].arguments[2] == Argument::Buffer(BufferName::Residual));
    assert(calls[10].arguments[2] == Argument::Buffer(BufferName::MlpInput));
    assert(calls[11].arguments[5] == Argument::Buffer(BufferName::Gate));
    assert(calls[12].arguments[5] == Argument::Buffer(BufferName::Up));
    assert(calls[13].arguments[2] == Argument::Buffer(BufferName::Swiglu));
    assert(calls[14].arguments[5] == Argument::Buffer(BufferName::MlpOut));
    assert(writes(calls[0], BufferName::AttnInput));
    assert(writes(calls[1], BufferName::Q));
    assert(writes(calls[2], BufferName::K));
    assert(writes(calls[3], BufferName::V));
    assert(writes(calls[7], BufferName::Attn));
    assert(writes(calls[8], BufferName::AttnOut));
    assert(writes(calls[9], BufferName::Residual));
    assert(writes(calls[10], BufferName::MlpInput));
    assert(writes(calls[11], BufferName::Gate));
    assert(writes(calls[12], BufferName::Up));
    assert(writes(calls[13], BufferName::Swiglu));
    assert(writes(calls[14], BufferName::MlpOut));
}

proof fn lemma_layers_reads(
    model: ModelImage,
    uploads: Seq<LayerUploads>,
    position: usize,
    count: int,
)
    requires
        layers_calls(model, uploads, position, count) is Ok,
    ensures
        reads_what_was_written(layers_calls(model, uploads, position, count)->Ok_0),
        keeps_the_model(layers_calls(model, uploads, position, count)->Ok_0),
    decreases count,
{
    if count > 0 {
        lemma_layers_reads(model, uploads, position, count - 1);
        lemma_layer_reads(model, count - 1, position);
        let before = layers_calls(model, uploads, position, count - 1)->Ok_0;
        let own = layer_calls(model, count - 1, position);
        let calls = layers_calls(model, uploads, position, count)->Ok_0;
        assert(calls == before + own);
        assert forall|k: int, name: BufferName|
            0 <= k < calls.len() && #[trigger] reads(calls[k], name) && !is_given(
                name,
            ) implies exists|j: int| 0 <= j < k && writes(#[trigger] calls[j], name) by {
            if k < before.len() {
                assert(calls[k] == before[k]);
                let j = choose|j: int| 0 <= j < k && writes(#[trigger] before[j], name);
                assert(calls[j] == before[j]);
            } else {
                assert(calls[k] == own[k - before.len()]);
                let j = choose|j: int|
                    0 <= j < k - before.len() && writes(#[trigger] own[j], name);
                assert(calls[before.len() + j] == own[j]);
            }
        }
        assert forall|k: int, name: BufferName|
            0 <= k < calls.len() && #[trigger] writes(calls[k], name) implies is_working(name) by {
            if k < before.len() {
                assert(calls[k] == before[k]);
            } else {
                assert(calls[k] == own[k - before.len()]);
            }
        }
    }
}

/// To decode a token, a call reads nothing but what the step was given and what
/// an earlier call has written, and no call writes what belongs to the model.
pub proof fn decode_reads_what_was_written(
    model: ModelImage,
    uploads: Seq<LayerUploads>,
    token_id: u32,
    position: usize,
)
    requires
        decode_calls(model, uploads, true, true, token_id, position) is Ok,
    ensures
        reads_what_was_written(
            decode_calls(model, uploads, true, true, token_id, position)->Ok_0,
        ),
        keeps_the_model(decode_calls(model, uploads, true, true, token_id, position)->Ok_0),
{
    lemma_layers_reads(model, uploads, position, model.layers.len() as int);
}

/// A layer's matrices stand on the GPU with all that their kernels read.
pub open spec fn all_uploaded(uploads: LayerUploads) -> bool {
    let there = |upload: Option<Upload>| upload is Some && upload->0.q4_weight && upload->0.biases;
    there(uploads.q) && there(uploads.k) && there(uploads.v) && there(uploads.o) && there(
        uploads.gate,
    ) && there(uploads.up) && there(uploads.down)
}

proof fn lemma_layers_can_run(
    model: ModelImage,
    uploads: Seq<LayerUploads>,
    position: usize,
    count: int,
)
    requires
        0 <= count,
    ensures
        layers_calls(model, uploads, position, count) is Ok <==> forall|i: int|
            0 <= i < count ==> all_uploaded(#[trigger] uploads[i]),
        layers_calls(model, uploads, position, count) is Ok ==> layers_calls(
            model,
            uploads,
            position,
            count,
        )->Ok_0.len() == 16 * count,
    decreases count,
{
    if count > 0 {
        lemma_layers_can_run(model, uploads, position, count - 1);
        assert(layer_obstacle(model, count - 1, uploads[count - 1]) is None <==> all_uploaded(
            uploads[count - 1],
        ));
    }
}

/// A token is decoded just where it has a row in the embedding, the row is as
/// wide as the hidden state, the GPU is there with its buffers, and the matrices
/// of every layer stand on it. Each layer then takes its turn.
pub proof fn decoding_needs_a_row_and_all_matrices(
    model: ModelImage,
    uploads: Seq<LayerUploads>,
    has_runtime: bool,
    has_buffers: bool,
    token_id: u32,
    position: usize,
)
    ensures
        decode_calls(model, uploads, has_runtime, has_buffers, token_id, position) is Ok <==> {
            &&& token_id < model.embed_tokens.out_dim
            &&& model.embed_tokens.in_dim == model.config.hidden_size
            &&& has_runtime && has_buffers
            &&& forall|i: int| 0 <= i < model.layers.len() ==> all_uploaded(#[trigger] uploads[i])
        },
        decode_calls(model, uploads, has_runtime, has_buffers, token_id, position) is Ok
            ==> decode_calls(
            model,
            uploads,
            has_runtime,
            has_buffers,
            token_id,
            position,
        )->Ok_0.len() == 16 * model.layers.len(),
{
    lemma_layers_can_run(model, uploads, position, model.layers.len() as int);
}

/// The calls that choose the next token: normalise, multiply by the head, take
/// the greatest.
pub open spec fn next_token_calls(config: QwenRuntimeConfig, head_rows: usize) -> Seq<Call> {
    let head = |buffer: TensorBuffer| Argument::Buffer(BufferName::Head { buffer });
    seq![
        rmsnorm_call(
            BufferName::Hidden,
            BufferName::OutputNormWeight,
            BufferName::NormedHidden,
            config.hidden_size,
        ),
        Call {
            kernel: Kernel::Q8Matvec,
            arguments: seq![
                Argument::Buffer(BufferName::NormedHidden),
                head(TensorBuffer::Q8Values),
                head(TensorBuffer::Scales),
                head(TensorBuffer::ZeroLinearBias),
                Argument::Buffer(BufferName::Logits),
                head(TensorBuffer::Dims),
            ],
            groups: line(head_rows as u64),
            threads: line(128),
        },
        Call {
            kernel: Kernel::Argmax,
            arguments: seq![
                Argument::Buffer(BufferName::Logits),
                Argument::Buffer(BufferName::ArgmaxIndex),
                Argument::Word(config.vocab_size as u32),
            ],
            groups: line(1),
            threads: line(256),
        },
    ]
}

/// To choose a token, a call reads nothing but what the step was given and what
/// an earlier call has written, and no call writes what belongs to the model.
pub proof fn choice_reads_what_was_written(config: QwenRuntimeConfig, head_rows: usize)
    ensures
        reads_what_was_written(next_token_calls(config, head_rows)),
        keeps_the_model(next_token_calls(config, head_rows)),
{
    let calls = next_token_calls(config, head_rows);
    assert(calls[0].arguments[2] == Argument::Buffer(BufferName::NormedHidden));
    assert(calls[1].arguments[4] == Argument::Buffer(BufferName::Logits));
    assert(calls[2].arguments[1] == Argument::Buffer(BufferName::ArgmaxIndex));
    assert(writes(calls[0], BufferName::NormedHidden));
    assert(writes(calls[1], BufferName::Logits));
}

/// The calls that choose the next token, or what keeps it from being chosen.
pub open spec fn next_token_plan(
    model: ModelImage,
    hidden_len: nat,
    has_runtime: bool,
    has_buffers: bool,
    head_upload: Option<Upload>,
) -> Result<Seq<Call>, Seq<char>> {
    let refusal = len_refusal("decode hidden"@, hidden_len, model.config.hidden_size as nat);
    if refusal is Some {
        Err(refusal->0)
    } else if !has_runtime {
        Err("Metal next-token path missing runtime"@)
    } else if !has_buffers {
        Err("Metal next-token path missing buffers"@)
    } else if model.lm_head is None {
        Err("Metal next-token path requires GGUF output.weight"@)
    } else if head_upload is None {
        Err("output.weight missing Metal buffers"@)
    } else if !head_upload->0.q8_values {
        Err("output.weight missing q8 Metal values"@)
    } else {
        Ok(next_token_calls(model.config, model.lm_head->0.out_dim))
    }
}

/// A token is chosen on the GPU just where the hidden state has its width, the
/// GPU is there with its buffers, and the head stands on it as bytes.
pub proof fn choice_needs_the_head(
    model: ModelImage,
    hidden_len: nat,
    has_runtime: bool,
    has_buffers: bool,
    head_upload: Option<Upload>,
)
    ensures
        next_token_plan(model, hidden_len, has_runtime, has_buffers, head_upload) is Ok <==> {
            &&& hidden_len == model.config.hidden_size
            &&& has_runtime && has_buffers
            &&& model.lm_head is Some
            &&& head_upload is Some && head_upload->0.q8_values
        },
{
}

impl QwenRuntimeModel {
    pub fn project_next_token_metal(
        &self,
        hidden_len: usize,
        has_runtime: bool,
        has_buffers: bool,
        head_upload: &Option<Upload>,
    ) -> (result: Result<Vec<KernelCall>, TinyAgentError>)
        ensures
            match result {
                Ok(calls) => next_token_plan(
                    self@,
                    hidden_len as nat,
                    has_runtime,
                    has_buffers,
                    *head_upload,
                ) == Ok::<Seq<Call>, Seq<char>>(views(calls@)),
                Err(error) => error@ is Configuration && next_token_plan(
                    self@,
                    hidden_len as nat,
                    has_runtime,
                    has_buffers,
                    *head_upload,
                ) == Err::<Seq<Call>, Seq<char>>(error@->Configuration_0),
            },
    {
        if let Err(error) = ensure_len("decode hidden", hidden_len, self.config.hidden_size) {
            return Err(error);
        }
        if !has_runtime {
            return Err(config_error("Metal next-token path missing runtime"));
        }
        if !has_buffers {
            return Err(config_error("Metal next-token path missing buffers"));
        }
        let lm_head = match &self.lm_head {
            Some(lm_head) => lm_head,
            None => return Err(
                config_error("Metal next-token path requires GGUF output.weight"),
            ),
        };
        match head_upload {
            None => return Err(config_error("output.weight missing Metal buffers")),
            Some(upload) => {
                if !upload.q8_values {
                    return Err(config_error("output.weight missing q8 Metal values"));
                }
            },
        }
        let mut calls: Vec<KernelCall> = Vec::new();
        calls.push(
            encode_rmsnorm(
                BufferName::Hidden,
                BufferName::OutputNormWeight,
                BufferName::NormedHidden,
                self.config.hidden_size,
            ),
        );
        let arguments: Vec<Argument> = vec![
            Argument::Buffer(BufferName::NormedHidden),
            Argument::Buffer(BufferName::Head { buffer: TensorBuffer::Q8Values }),
            Argument::Buffer(BufferName::Head { buffer: TensorBuffer::Scales }),
            Argument::Buffer(BufferName::Head { buffer: TensorBuffer::ZeroLinearBias }),
            Argument::Buffer(BufferName::Logits),
            Argument::Buffer(BufferName::Head { buffer: TensorBuffer::Dims }),
        ];
        calls.push(
            KernelCall {
                kernel: Kernel::Q8Matvec,
                arguments,
                groups: line_of(lm_head.out_dim as u64),
                threads: line_of(128),
            },
        );
        let arguments: Vec<Argument> = vec![
            Argument::Buffer(BufferName::Logits),
            Argument::Buffer(BufferName::ArgmaxIndex),
            Argument::Word(self.config.vocab_size as u32),
        ];
        calls.push(
            KernelCall {
                kernel: Kernel::Argmax,
                arguments,
                groups: line_of(1),
                threads: line_of(256),
            },
        );
        proof {
            let expected = next_token_calls(self.config, lm_head.out_dim);
            assert(calls@[1]@.arguments =~= expected[1].arguments);
            assert(calls@[2]@.arguments =~= expected[2].arguments);
            assert(views(calls@) =~= expected);
        }
        Ok(calls)
    }
}

/// Each kernel is looked up under the name of what it does, and every kernel is
/// made ready, once.
pub proof fn kernels_are_named_after_their_work(kernel: Kernel)
    ensures
        kernel.name() == match kernel {
            Kernel::Q4Matvec => "q4_affine_matvec_f32"@,
            Kernel::Q4Matmul => "q4_affine_matmat_f32"@,
            Kernel::Q8Matvec => "q8_0_matvec_f32"@,
            Kernel::Rmsnorm => "rmsnorm_f32"@,
            Kernel::Rope => "rope_inplace_f32"@,
            Kernel::KvWrite => "write_kv_cache_f32"@,
            Kernel::Attention => "attention_decode_f32"@,
            Kernel::Add => "add_f32"@,
            Kernel::Swiglu => "swiglu_f32"@,
            Kernel::Argmax => "argmax_f32"@,
        },
        kernel_order().contains(kernel),
        kernel_order().no_duplicates(),
{
    let order = kernel_order();
    assert(order[0] == Kernel::Q4Matvec);
    assert(order[1] == Kernel::Q4Matmul);
    assert(order[2] == Kernel::Q8Matvec);
    assert(order[3] == Kernel::Rmsnorm);
    assert(order[4] == Kernel::Rope);
    assert(order[5] == Kernel::KvWrite);
    assert(order[6] == Kernel::Attention);
    assert(order[7] == Kernel::Add);
    assert(order[8] == Kernel::Swiglu);
    assert(order[9] == Kernel::Argmax);
}

} // verus!
