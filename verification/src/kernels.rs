//! The kernels that are tried and timed one by one: what they are given, how
//! they are launched, and what may go wrong.

use crate::error::{config_error, config_outcome, Fault, TinyAgentError};
use crate::meaning::{just_enough, lemma_just_enough};
use crate::plan::{div_ceil, line, line_of, parts, Size};
use crate::text::{cat2, cat4, cat5, cat6, decimal, decimal_usize};
use vstd::prelude::*;
use vstd::string::StringExecFns;

verus! {

/// The kernels.
#[derive(Debug, Clone, Copy, PartialEq, Eq, Structural)]
pub enum ProbeKernel {
    VectorAdd,
    HotMatmul,
    HotMatvec,
    Matmul,
    Matvec,
    RmsNorm,
    Rope,
    SwiGlu,
    Softmax,
    Attention,
    GreedySampler,
    KvAppend,
}

/// Something that a kernel is handed. The vectors that a launch is given are
/// counted as the function that plans it takes their lengths.
#[derive(Debug, Clone, Copy, PartialEq, Eq, Structural)]
pub enum Operand {
    /// A given vector, which is read.
    Input(usize),
    /// A given vector, which is read and written.
    Updated(usize),
    /// A vector that is written.
    Output(usize),
    /// The numbers of the launch, one after the other.
    Dims,
    /// A float: what keeps a divisor from zero, or the scale of a product.
    Number,
}

impl ProbeKernel {
    /// The name of the kernel in its shader library.
    pub open spec fn name(self) -> Seq<char> {
        match self {
            ProbeKernel::VectorAdd => "vector_add"@,
            ProbeKernel::HotMatmul => "matmul_f16_f32_tiled"@,
            ProbeKernel::HotMatvec => "matvec_f16_f32"@,
            ProbeKernel::Matmul => "matmul_f16_f32_tiled"@,
            ProbeKernel::Matvec => "matvec_f16_f32"@,
            ProbeKernel::RmsNorm => "rmsnorm_f16_f32"@,
            ProbeKernel::Rope => "rope_qwen_f16_f32"@,
            ProbeKernel::SwiGlu => "swiglu_f32"@,
            ProbeKernel::Softmax => "softmax_f32"@,
            ProbeKernel::Attention => "attention_decode_f16_f32"@,
            ProbeKernel::GreedySampler => "greedy_argmax_f32"@,
            ProbeKernel::KvAppend => "kv_cache_append_f16"@,
        }
    }

    pub fn function_name(self) -> (name: &'static str)
        ensures
            name@ == self.name(),
    {
        match self {
            ProbeKernel::VectorAdd => "vector_add",
            ProbeKernel::HotMatmul => "matmul_f16_f32_tiled",
            ProbeKernel::HotMatvec => "matvec_f16_f32",
            ProbeKernel::Matmul => "matmul_f16_f32_tiled",
            ProbeKernel::Matvec => "matvec_f16_f32",
            ProbeKernel::RmsNorm => "rmsnorm_f16_f32",
            ProbeKernel::Rope => "rope_qwen_f16_f32",
            ProbeKernel::SwiGlu => "swiglu_f32",
            ProbeKernel::Softmax => "softmax_f32",
            ProbeKernel::Attention => "attention_decode_f16_f32",
            ProbeKernel::GreedySampler => "greedy_argmax_f32",
            ProbeKernel::KvAppend => "kv_cache_append_f16",
        }
    }

    /// What the kernel is handed, in order.
    pub open spec fn operand_list(self) -> Seq<Operand> {
        match self {
            ProbeKernel::VectorAdd => seq![
                Operand::Input(0),
                Operand::Input(1),
                Operand::Output(0),
            ],
            ProbeKernel::HotMatmul
            | ProbeKernel::HotMatvec
            | ProbeKernel::Matmul
            | ProbeKernel::Matvec
            | ProbeKernel::SwiGlu => seq![
                Operand::Input(0),
                Operand::Input(1),
                Operand::Output(0),
                Operand::Dims,
            ],
            ProbeKernel::RmsNorm => seq![
                Operand::Input(0),
                Operand::Input(1),
                Operand::Output(0),
                Operand::Dims,
                Operand::Number,
            ],
            ProbeKernel::Rope => seq![
                Operand::Input(0),
                Operand::Input(1),
                Operand::Input(2),
                Operand::Output(0),
                Operand::Dims,
            ],
            ProbeKernel::Softmax => seq![Operand::Input(0), Operand::Output(0), Operand::Dims],
            ProbeKernel::Attention => seq![
                Operand::Input(0),
                Operand::Input(1),
                Operand::Input(2),
                Operand::Output(0),
                Operand::Dims,
                Operand::Number,
            ],
            ProbeKernel::GreedySampler => seq![
                Operand::Input(0),
                Operand::Output(0),
                Operand::Output(1),
                Operand::Dims,
            ],
            ProbeKernel::KvAppend => seq![
                Operand::Updated(0),
                Operand::Updated(1),
                Operand::Input(2),
                Operand::Input(3),
                Operand::Dims,
            ],
        }
    }

    pub fn operands(self) -> (operands: Vec<Operand>)
        ensures
            operands@ == self.operand_list(),
    {
        let operands: Vec<Operand> = match self {
            ProbeKernel::VectorAdd => vec![Operand::Input(0), Operand::Input(1), Operand::Output(0)],
            ProbeKernel::HotMatmul
            | ProbeKernel::HotMatvec
            | ProbeKernel::Matmul
            | ProbeKernel::Matvec
            | ProbeKernel::SwiGlu => vec![
                Operand::Input(0),
                Operand::Input(1),
                Operand::Output(0),
                Operand::Dims,
            ],
            ProbeKernel::RmsNorm => vec![
                Operand::Input(0),
                Operand::Input(1),
                Operand::Output(0),
                Operand::Dims,
                Operand::Number,
            ],
            ProbeKernel::Rope => vec![
                Operand::Input(0),
                Operand::Input(1),
                Operand::Input(2),
                Operand::Output(0),
                Operand::Dims,
            ],
            ProbeKernel::Softmax => vec![Operand::Input(0), Operand::Output(0), Operand::Dims],
            ProbeKernel::Attention => vec![
                Operand::Input(0),
                Operand::Input(1),
                Operand::Input(2),
                Operand::Output(0),
                Operand::Dims,
                Operand::Number,
            ],
            ProbeKernel::GreedySampler => vec![
                Operand::Input(0),
                Operand::Output(0),
                Operand::Output(1),
                Operand::Dims,
            ],
            ProbeKernel::KvAppend => vec![
                Operand::Updated(0),
                Operand::Updated(1),
                Operand::Input(2),
                Operand::Input(3),
                Operand::Dims,
            ],
        };
        assert(operands@ =~= self.operand_list());
        operands
    }

    /// How the kernel is called in the text of an error.
    pub open spec fn described(self) -> Seq<char> {
        match self {
            ProbeKernel::VectorAdd => "Metal probe"@,
            ProbeKernel::HotMatmul => "hot matmul"@,
            ProbeKernel::HotMatvec => "hot matvec"@,
            ProbeKernel::Matmul => "f16 matmul"@,
            ProbeKernel::Matvec => "f16 matvec"@,
            ProbeKernel::RmsNorm => "RMSNorm"@,
            ProbeKernel::Rope => "RoPE"@,
            ProbeKernel::SwiGlu => "SwiGLU"@,
            ProbeKernel::Softmax => "softmax"@,
            ProbeKernel::Attention => "attention decode"@,
            ProbeKernel::GreedySampler => "greedy sampler"@,
            ProbeKernel::KvAppend => "KV append"@,
        }
    }

    fn description(self) -> (text: &'static str)
        ensures
            text@ == self.described(),
    {
        match self {
            ProbeKernel::VectorAdd => "Metal probe",
            ProbeKernel::HotMatmul => "hot matmul",
            ProbeKernel::HotMatvec => "hot matvec",
            ProbeKernel::Matmul => "f16 matmul",
            ProbeKernel::Matvec => "f16 matvec",
            ProbeKernel::RmsNorm => "RMSNorm",
            ProbeKernel::Rope => "RoPE",
            ProbeKernel::SwiGlu => "SwiGLU",
            ProbeKernel::Softmax => "softmax",
            ProbeKernel::Attention => "attention decode",
            ProbeKernel::GreedySampler => "greedy sampler",
            ProbeKernel::KvAppend => "KV append",
        }
    }

    /// The fault of a shader library that does not compile.
    pub fn compile_failure(self, reason: &str) -> (error: TinyAgentError)
        ensures
            error@ == Fault::Backend(
                "failed to compile "@ + self.described() + " kernel: "@ + reason@,
            ),
    {
        TinyAgentError::Backend(cat4("failed to compile ", self.description(), " kernel: ", reason))
    }

    /// The fault of a kernel that the shader library does not give.
    pub fn load_failure(self, reason: &str) -> (error: TinyAgentError)
        ensures
            error@ == Fault::Backend(
                "failed to load "@ + self.described() + " kernel: "@ + reason@,
            ),
    {
        TinyAgentError::Backend(cat4("failed to load ", self.description(), " kernel: ", reason))
    }

    /// The fault of a kernel that no pipeline can be made for.
    pub fn pipeline_failure(self, reason: &str) -> (error: TinyAgentError)
        ensures
            error@ == Fault::Backend(
                if self == ProbeKernel::VectorAdd {
                    "failed to create Metal pipeline: "@ + reason@
                } else {
                    "failed to create "@ + self.described() + " pipeline: "@ + reason@
                },
            ),
    {
        match self {
            ProbeKernel::VectorAdd => TinyAgentError::Backend(
                cat2("failed to create Metal pipeline: ", reason),
            ),
            _ => TinyAgentError::Backend(
                cat4("failed to create ", self.description(), " pipeline: ", reason),
            ),
        }
    }
}

/// The fault of a machine without a GPU.
pub fn missing_device() -> (error: TinyAgentError)
    ensures
        error@ == Fault::Configuration(
            "no default Metal device found; TinyEngine requires Apple Silicon or a Metal-capable GPU"@,
        ),
{
    config_error(
        "no default Metal device found; TinyEngine requires Apple Silicon or a Metal-capable GPU",
    )
}

/// What a launch counts: groups of threads, or threads.
#[derive(Debug, Clone, Copy, PartialEq, Eq, Structural)]
pub enum Grid {
    Groups(Size),
    Threads(Size),
}

/// How a kernel is launched: the kernel, its grid, the threads of a group, the numbers it
/// is told, and the length of its output with its bytes.
#[derive(Debug)]
pub struct LaunchPlan {
    pub kernel: ProbeKernel,
    pub grid: Grid,
    pub threads: Size,
    pub dims: Vec<u32>,
    pub output_len: usize,
    pub output_bytes: u64,
}

/// The mathematical value of a `LaunchPlan`.
#[verifier::ext_equal]
pub struct Launch {
    pub kernel: ProbeKernel,
    pub grid: Grid,
    pub threads: Size,
    pub dims: Seq<u32>,
    pub output_len: nat,
    pub output_bytes: nat,
}

impl View for LaunchPlan {
    type V = Launch;

    open spec fn view(&self) -> Launch {
        Launch {
            kernel: self.kernel,
            grid: self.grid,
            threads: self.threads,
            dims: self.dims@,
            output_len: self.output_len as nat,
            output_bytes: self.output_bytes as nat,
        }
    }
}

/// A launch whose output holds 32-bit numbers.
pub open spec fn launch(
    kernel: ProbeKernel,
    grid: Grid,
    threads: Size,
    dims: Seq<u32>,
    output_len: nat,
) -> Launch {
    Launch { kernel, grid, threads, dims, output_len, output_bytes: 4 * output_len }
}

fn plan(
    kernel: ProbeKernel,
    grid: Grid,
    threads: Size,
    dims: Vec<u32>,
    output_len: usize,
) -> (plan: LaunchPlan)
    requires
        4 * output_len <= usize::MAX,
    ensures
        plan@ == launch(kernel, grid, threads, dims@, output_len as nat),
{
    LaunchPlan { kernel, grid, threads, dims, output_len, output_bytes: (4 * output_len) as u64 }
}

/// The sum of two vectors of four numbers.
pub fn run_add_kernel_probe() -> (launched: LaunchPlan)
    ensures
        launched@ == launch(
            ProbeKernel::VectorAdd,
            Grid::Threads(line(4)),
            line(4),
            Seq::empty(),
            4,
        ),
{
    let dims: Vec<u32> = Vec::new();
    plan(ProbeKernel::VectorAdd, Grid::Threads(line_of(4)), line_of(4), dims, 4)
}

/// What is said of a length that is not what it should be.
pub open spec fn length_mismatch(what: Seq<char>, len: nat, formula: Seq<char>, expected: nat) -> Seq<
    char,
> {
    what + " length "@ + decimal(len) + " does not match "@ + formula + " "@ + decimal(expected)
}

fn length_error(what: &str, len: usize, formula: &str, expected: usize) -> (error: TinyAgentError)
    ensures
        error@ == Fault::Configuration(
            length_mismatch(what@, len as nat, formula@, expected as nat),
        ),
{
    let mut text = cat6(
        what,
        " length ",
        decimal_usize(len).as_str(),
        " does not match ",
        formula,
        " ",
    );
    text.append(decimal_usize(expected).as_str());
    TinyAgentError::Configuration(text)
}

/// The grid of a product of matrices, in tiles of 16 by 16.
pub open spec fn matmul_grid(m: usize, n: usize) -> Grid {
    Grid::Groups(
        Size {
            width: parts(n as nat, 16) as u64,
            height: parts(m as nat, 16) as u64,
            depth: 1,
        },
    )
}

/// The threads of a tile.
pub open spec fn tile() -> Size {
    Size { width: 16, height: 16, depth: 1 }
}

/// The launch of a product of an `m` by `k` and a `k` by `n` matrix.
pub open spec fn matmul_launch(kernel: ProbeKernel, m: usize, n: usize, k: usize) -> Launch {
    launch(
        kernel,
        matmul_grid(m, n),
        tile(),
        seq![m as u32, n as u32, k as u32],
        (m * n) as nat,
    )
}

/// The launch of a product of a vector of `k` numbers with a `k` by `n` matrix.
pub open spec fn matvec_launch(kernel: ProbeKernel, n: usize, k: usize) -> Launch {
    launch(
        kernel,
        Grid::Groups(line(parts(n as nat, 16) as u64)),
        tile(),
        seq![n as u32, k as u32],
        n as nat,
    )
}

fn plan_matmul(kernel: ProbeKernel, m: usize, n: usize, k: usize) -> (launched: LaunchPlan)
    requires
        4 * (m * n) <= usize::MAX,
    ensures
        launched@ == matmul_launch(kernel, m, n, k),
{
    proof {
        assert(0 <= m * n) by (nonlinear_arith)
            requires
                0 <= m,
                0 <= n,
        ;
    }
    let dims: Vec<u32> = vec![m as u32, n as u32, k as u32];
    assert(dims@ =~= seq![m as u32, n as u32, k as u32]);
    plan(
        kernel,
        Grid::Groups(
            Size { width: div_ceil(n, 16) as u64, height: div_ceil(m, 16) as u64, depth: 1 },
        ),
        Size { width: 16, height: 16, depth: 1 },
        dims,
        m * n,
    )
}

fn plan_matvec(kernel: ProbeKernel, n: usize, k: usize) -> (launched: LaunchPlan)
    requires
        4 * n <= usize::MAX,
    ensures
        launched@ == matvec_launch(kernel, n, k),
{
    let dims: Vec<u32> = vec![n as u32, k as u32];
    assert(dims@ =~= seq![n as u32, k as u32]);
    plan(
        kernel,
        Grid::Groups(line_of(div_ceil(n, 16) as u64)),
        Size { width: 16, height: 16, depth: 1 },
        dims,
        n,
    )
}

/// A product of two matrices.
pub fn run_f16_matmul(a_len: usize, b_len: usize, m: usize, n: usize, k: usize) -> (result: Result<
    LaunchPlan,
    TinyAgentError,
>)
    requires
        m * k <= usize::MAX,
        a_len == m * k ==> k * n <= usize::MAX,
        a_len == m * k && b_len == k * n ==> 4 * (m * n) <= usize::MAX,
    ensures
        config_outcome(
            result,
            if a_len != m * k {
                Err(length_mismatch("lhs"@, a_len as nat, "m*k"@, (m * k) as nat))
            } else if b_len != k * n {
                Err(length_mismatch("rhs"@, b_len as nat, "k*n"@, (k * n) as nat))
            } else {
                Ok(matmul_launch(ProbeKernel::Matmul, m, n, k))
            },
        ),
{
    if a_len != m * k {
        return Err(length_error("lhs", a_len, "m*k", m * k));
    }
    if b_len != k * n {
        return Err(length_error("rhs", b_len, "k*n", k * n));
    }
    Ok(plan_matmul(ProbeKernel::Matmul, m, n, k))
}

/// A product of a vector with a matrix.
pub fn run_f16_matvec(x_len: usize, w_len: usize, n: usize, k: usize) -> (result: Result<
    LaunchPlan,
    TinyAgentError,
>)
    requires
        x_len == k ==> k * n <= usize::MAX,
        x_len == k && w_len == k * n ==> 4 * n <= usize::MAX,
    ensures
        config_outcome(
            result,
            if x_len != k {
                Err(length_mismatch("input"@, x_len as nat, "k"@, k as nat))
            } else if w_len != k * n {
                Err(length_mismatch("weight"@, w_len as nat, "k*n"@, (k * n) as nat))
            } else {
                Ok(matvec_launch(ProbeKernel::Matvec, n, k))
            },
        ),
{
    if x_len != k {
        return Err(length_error("input", x_len, "k", k));
    }
    if w_len != k * n {
        return Err(length_error("weight", w_len, "k*n", k * n));
    }
    Ok(plan_matvec(ProbeKernel::Matvec, n, k))
}

/// The launch of a kernel with a group of threads per row.
pub open spec fn row_launch(kernel: ProbeKernel, rows: usize, cols: usize) -> Launch {
    launch(
        kernel,
        Grid::Groups(line(rows as u64)),
        line(256),
        seq![rows as u32, cols as u32],
        (rows * cols) as nat,
    )
}

fn plan_rows(kernel: ProbeKernel, rows: usize, cols: usize) -> (launched: LaunchPlan)
    requires
        4 * (rows * cols) <= usize::MAX,
    ensures
        launched@ == row_launch(kernel, rows, cols),
{
    proof {
        assert(0 <= rows * cols) by (nonlinear_arith)
            requires
                0 <= rows,
                0 <= cols,
        ;
    }
    let dims: Vec<u32> = vec![rows as u32, cols as u32];
    assert(dims@ =~= seq![rows as u32, cols as u32]);
    plan(kernel, Grid::Groups(line_of(rows as u64)), line_of(256), dims, rows * cols)
}

/// The normalisation of rows.
pub fn run_rmsnorm_f16_to_f32(x_len: usize, weight_len: usize, rows: usize, cols: usize) -> (result: Result<
    LaunchPlan,
    TinyAgentError,
>)
    requires
        rows * cols <= usize::MAX,
        x_len == rows * cols && weight_len == cols ==> 4 * (rows * cols) <= usize::MAX,
    ensures
        config_outcome(
            result,
            if x_len != rows * cols {
                Err(length_mismatch("input"@, x_len as nat, "rows*cols"@, (rows * cols) as nat))
            } else if weight_len != cols {
                Err(length_mismatch("weight"@, weight_len as nat, "cols"@, cols as nat))
            } else {
                Ok(row_launch(ProbeKernel::RmsNorm, rows, cols))
            },
        ),
{
    if x_len != rows * cols {
        return Err(length_error("input", x_len, "rows*cols", rows * cols));
    }
    if weight_len != cols {
        return Err(length_error("weight", weight_len, "cols", cols));
    }
    Ok(plan_rows(ProbeKernel::RmsNorm, rows, cols))
}

/// The softmax of rows.
pub fn run_softmax_f32(x_len: usize, rows: usize, cols: usize) -> (result: Result<
    LaunchPlan,
    TinyAgentError,
>)
    requires
        rows * cols <= usize::MAX,
        x_len == rows * cols ==> 4 * (rows * cols) <= usize::MAX,
    ensures
        config_outcome(
            result,
            if x_len != rows * cols {
                Err(length_mismatch("input"@, x_len as nat, "rows*cols"@, (rows * cols) as nat))
            } else {
                Ok(row_launch(ProbeKernel::Softmax, rows, cols))
            },
        ),
{
    if x_len != rows * cols {
        return Err(length_error("input", x_len, "rows*cols", rows * cols));
    }
    Ok(plan_rows(ProbeKernel::Softmax, rows, cols))
}

/// Two lengths behind a text.
pub open spec fn two_lengths(text: Seq<char>, left: nat, right: nat) -> Seq<char> {
    text + ", got "@ + decimal(left) + "/"@ + decimal(right)
}

fn two_lengths_error(text: &str, left: usize, right: usize) -> (error: TinyAgentError)
    ensures
        error@ == Fault::Configuration(two_lengths(text@, left as nat, right as nat)),
{
    TinyAgentError::Configuration(
        cat5(
            text,
            ", got ",
            decimal_usize(left).as_str(),
            "/",
            decimal_usize(right).as_str(),
        ),
    )
}

/// What keeps rows from being rotated.
pub open spec fn rope_refusal(x_len: usize, cos_len: usize, sin_len: usize, rows: usize, dims: usize) -> Option<
    Seq<char>,
> {
    if dims % 2 != 0 {
        Some("RoPE dims must be even, got "@ + decimal(dims as nat))
    } else if x_len != rows * dims {
        Some(length_mismatch("input"@, x_len as nat, "rows*dims"@, (rows * dims) as nat))
    } else if cos_len != dims || sin_len != dims {
        Some(
            two_lengths(
                "cos/sin lengths must match dims "@ + decimal(dims as nat),
                cos_len as nat,
                sin_len as nat,
            ),
        )
    } else {
        None
    }
}

/// The rotation of rows.
pub fn run_rope_f16_to_f32(x_len: usize, cos_len: usize, sin_len: usize, rows: usize, dims: usize) -> (result: Result<
    LaunchPlan,
    TinyAgentError,
>)
    requires
        dims % 2 == 0 ==> rows * dims <= usize::MAX,
        rope_refusal(x_len, cos_len, sin_len, rows, dims) is None ==> 4 * (rows * dims)
            <= usize::MAX,
    ensures
        config_outcome(
            result,
            match rope_refusal(x_len, cos_len, sin_len, rows, dims) {
                Some(text) => Err(text),
                None => Ok(
                    launch(
                        ProbeKernel::Rope,
                        Grid::Threads(line((rows * dims) as u64)),
                        line(256),
                        seq![rows as u32, dims as u32],
                        (rows * dims) as nat,
                    ),
                ),
            },
        ),
{
    if dims % 2 != 0 {
        return Err(
            TinyAgentError::Configuration(
                cat2("RoPE dims must be even, got ", decimal_usize(dims).as_str()),
            ),
        );
    }
    if x_len != rows * dims {
        return Err(length_error("input", x_len, "rows*dims", rows * dims));
    }
    if cos_len != dims || sin_len != dims {
        let text = cat2("cos/sin lengths must match dims ", decimal_usize(dims).as_str());
        return Err(two_lengths_error(text.as_str(), cos_len, sin_len));
    }
    let kernel_dims: Vec<u32> = vec![rows as u32, dims as u32];
    assert(kernel_dims@ =~= seq![rows as u32, dims as u32]);
    Ok(
        plan(
            ProbeKernel::Rope,
            Grid::Threads(line_of((rows * dims) as u64)),
            line_of(256),
            kernel_dims,
            rows * dims,
        ),
    )
}

/// The gated product of two vectors.
pub fn run_swiglu_f32(gate_len: usize, up_len: usize) -> (result: Result<LaunchPlan, TinyAgentError>)
    requires
        gate_len == up_len ==> 4 * gate_len <= usize::MAX,
    ensures
        config_outcome(
            result,
            if gate_len != up_len {
                Err(
                    two_lengths(
                        "gate/up lengths must match"@,
                        gate_len as nat,
                        up_len as nat,
                    ),
                )
            } else {
                Ok(
                    launch(
                        ProbeKernel::SwiGlu,
                        Grid::Threads(line(gate_len as u64)),
                        line(256),
                        seq![gate_len as u32],
                        gate_len as nat,
                    ),
                )
            },
        ),
{
    if gate_len != up_len {
        return Err(two_lengths_error("gate/up lengths must match", gate_len, up_len));
    }
    let dims: Vec<u32> = vec![gate_len as u32];
    assert(dims@ =~= seq![gate_len as u32]);
    Ok(plan(ProbeKernel::SwiGlu, Grid::Threads(line_of(gate_len as u64)), line_of(256), dims, gate_len))
}

/// What keeps a query from being answered.
pub open spec fn attention_refusal(q_len: usize, k_len: usize, v_len: usize, seq: usize, head_dim: usize) -> Option<
    Seq<char>,
> {
    if seq > 256 {
        Some("attention decode scaffold supports seq <= 256, got "@ + decimal(seq as nat))
    } else if q_len != head_dim {
        Some(length_mismatch("query"@, q_len as nat, "head_dim"@, head_dim as nat))
    } else if k_len != seq * head_dim || v_len != seq * head_dim {
        Some(
            two_lengths(
                "key/value lengths must match seq*head_dim "@ + decimal((seq * head_dim) as nat),
                k_len as nat,
                v_len as nat,
            ),
        )
    } else {
        None
    }
}

/// The attention of one query over a sequence.
pub fn run_attention_decode_f16_to_f32(
    q_len: usize,
    k_len: usize,
    v_len: usize,
    seq: usize,
    head_dim: usize,
) -> (result: Result<LaunchPlan, TinyAgentError>)
    requires
        seq <= 256 && q_len == head_dim ==> seq * head_dim <= usize::MAX,
        attention_refusal(q_len, k_len, v_len, seq, head_dim) is None ==> 4 * head_dim
            <= usize::MAX,
    ensures
        config_outcome(
            result,
            match attention_refusal(q_len, k_len, v_len, seq, head_dim) {
                Some(text) => Err(text),
                None => Ok(
                    launch(
                        ProbeKernel::Attention,
                        Grid::Groups(line(1)),
                        line(256),
                        seq![seq as u32, head_dim as u32],
                        head_dim as nat,
                    ),
                ),
            },
        ),
{
    if seq > 256 {
        return Err(
            TinyAgentError::Configuration(
                cat2(
                    "attention decode scaffold supports seq <= 256, got ",
                    decimal_usize(seq).as_str(),
                ),
            ),
        );
    }
    if q_len != head_dim {
        return Err(length_error("query", q_len, "head_dim", head_dim));
    }
    if k_len != seq * head_dim || v_len != seq * head_dim {
        let text = cat2(
            "key/value lengths must match seq*head_dim ",
            decimal_usize(seq * head_dim).as_str(),
        );
        return Err(two_lengths_error(text.as_str(), k_len, v_len));
    }
    let dims: Vec<u32> = vec![seq as u32, head_dim as u32];
    assert(dims@ =~= seq![seq as u32, head_dim as u32]);
    Ok(plan(ProbeKernel::Attention, Grid::Groups(line_of(1)), line_of(256), dims, head_dim))
}

/// The choice of the greatest of some logits. The output is an index and a
/// value.
pub fn run_greedy_argmax_f32(logits_len: usize) -> (result: Result<LaunchPlan, TinyAgentError>)
    ensures
        config_outcome(
            result,
            if logits_len == 0 {
                Err("cannot sample from empty logits"@)
            } else {
                Ok(launch(ProbeKernel::GreedySampler, Grid::Groups(line(1)), line(256), seq![logits_len as u32], 1))
            },
        ),
{
    if logits_len == 0 {
        return Err(config_error("cannot sample from empty logits"));
    }
    let dims: Vec<u32> = vec![logits_len as u32];
    assert(dims@ =~= seq![logits_len as u32]);
    Ok(plan(ProbeKernel::GreedySampler, Grid::Groups(line_of(1)), line_of(256), dims, 1))
}

/// What keeps a key and a value from being appended.
pub open spec fn append_refusal(
    k_len: usize,
    v_len: usize,
    k_new: usize,
    v_new: usize,
    seq: usize,
    head_dim: usize,
    position: usize,
) -> Option<Seq<char>> {
    if position >= seq {
        Some(
            "KV position "@ + decimal(position as nat) + " is outside seq "@ + decimal(seq as nat),
        )
    } else if k_len != seq * head_dim || v_len != seq * head_dim {
        Some(
            two_lengths(
                "KV cache lengths must match seq*head_dim "@ + decimal((seq * head_dim) as nat),
                k_len as nat,
                v_len as nat,
            ),
        )
    } else if k_new != head_dim || v_new != head_dim {
        Some(
            two_lengths(
                "new KV lengths must match head_dim "@ + decimal(head_dim as nat),
                k_new as nat,
                v_new as nat,
            ),
        )
    } else {
        None
    }
}

/// The appending of a key and a value. The outputs are the two caches, of
/// 16-bit numbers.
pub fn run_kv_cache_append_f16(
    k_len: usize,
    v_len: usize,
    k_new: usize,
    v_new: usize,
    seq: usize,
    head_dim: usize,
    position: usize,
) -> (result: Result<LaunchPlan, TinyAgentError>)
    requires
        position < seq ==> seq * head_dim <= usize::MAX,
        append_refusal(k_len, v_len, k_new, v_new, seq, head_dim, position) is None ==> 2 * (seq
            * head_dim) <= usize::MAX,
    ensures
        config_outcome(
            result,
            match append_refusal(k_len, v_len, k_new, v_new, seq, head_dim, position) {
                Some(text) => Err(text),
                None => Ok(
                    Launch {
                        kernel: ProbeKernel::KvAppend,
                        grid: Grid::Threads(line(head_dim as u64)),
                        threads: line(256),
                        dims: seq![head_dim as u32, position as u32],
                        output_len: (seq * head_dim) as nat,
                        output_bytes: (2 * (seq * head_dim)) as nat,
                    },
                ),
            },
        ),
{
    if position >= seq {
        return Err(
            TinyAgentError::Configuration(
                cat4(
                    "KV position ",
                    decimal_usize(position).as_str(),
                    " is outside seq ",
                    decimal_usize(seq).as_str(),
                ),
            ),
        );
    }
    proof {
        assert(0 <= seq * head_dim) by (nonlinear_arith)
            requires
                0 <= seq,
                0 <= head_dim,
        ;
    }
    if k_len != seq * head_dim || v_len != seq * head_dim {
        let text = cat2(
            "KV cache lengths must match seq*head_dim ",
            decimal_usize(seq * head_dim).as_str(),
        );
        return Err(two_lengths_error(text.as_str(), k_len, v_len));
    }
    if k_new != head_dim || v_new != head_dim {
        let text = cat2("new KV lengths must match head_dim ", decimal_usize(head_dim).as_str());
        return Err(two_lengths_error(text.as_str(), k_new, v_new));
    }
    let dims: Vec<u32> = vec![head_dim as u32, position as u32];
    assert(dims@ =~= seq![head_dim as u32, position as u32]);
    Ok(
        LaunchPlan {
            kernel: ProbeKernel::KvAppend,
            grid: Grid::Threads(line_of(head_dim as u64)),
            threads: line_of(256),
            dims,
            output_len: seq * head_dim,
            output_bytes: (2 * (seq * head_dim)) as u64,
        },
    )
}

/// The column that a rotation pairs with a column.
pub fn rope_pair(column: usize, dims: usize) -> (pair: usize)
    requires
        dims % 2 == 0,
        column < dims,
    ensures
        pair == if column < dims / 2 {
            column + dims / 2
        } else {
            column - dims / 2
        },
        pair < dims,
{
    let half: usize = dims / 2;
    if column < half {
        column + half
    } else {
        column - half
    }
}

/// Whether a 32-bit float, given by its bit pattern, is finite.
pub fn is_finite(bits: u32) -> (finite: bool)
    ensures
        finite == (bits as int / 0x80_0000 % 256 != 255),
{
    bits / 0x80_0000 % 256 != 255
}

/// What is known of a timed kernel before it runs.
#[derive(Debug)]
pub struct HotBench {
    pub shape: String,
    pub logical_ops_per_iter: u64,
    pub total_ops: u64,
    pub inputs: Vec<BenchInput>,
    pub launch: LaunchPlan,
}

/// A timed product of matrices.
pub fn run_hot_f16_matmul_bench(m: usize, n: usize, k: usize, iterations: u32) -> (bench: HotBench)
    requires
        m * k <= usize::MAX,
        k * n <= usize::MAX,
        4 * (m * n) <= usize::MAX,
        2 * m <= usize::MAX,
        2 * m * n <= usize::MAX,
        2 * m * n * k <= usize::MAX,
        2 * m * n * k * iterations <= u64::MAX,
    ensures
        bench.shape@ == "m="@ + decimal(m as nat) + ",n="@ + decimal(n as nat) + ",k="@ + decimal(
            k as nat,
        ),
        bench.logical_ops_per_iter == 2 * m * n * k,
        bench.total_ops == 2 * m * n * k * iterations,
        bench.inputs@ == seq![
            half_input((m * k) as usize, 0xA11CE),
            half_input((k * n) as usize, 0xB0B),
        ],
        bench.launch@ == matmul_launch(ProbeKernel::HotMatmul, m, n, k),
{
    let logical_ops_per_iter: u64 = (2 * m * n * k) as u64;
    let inputs: Vec<BenchInput> = vec![half(m * k, 0xA11CE), half(k * n, 0xB0B)];
    assert(inputs@ =~= seq![
        half_input((m * k) as usize, 0xA11CE),
        half_input((k * n) as usize, 0xB0B),
    ]);
    HotBench {
        shape: cat6(
            "m=",
            decimal_usize(m).as_str(),
            ",n=",
            decimal_usize(n).as_str(),
            ",k=",
            decimal_usize(k).as_str(),
        ),
        logical_ops_per_iter,
        total_ops: logical_ops_per_iter * (iterations as u64),
        inputs,
        launch: plan_matmul(ProbeKernel::HotMatmul, m, n, k),
    }
}

/// A timed product of a vector with a matrix.
pub fn run_hot_f16_matvec_bench(n: usize, k: usize, iterations: u32) -> (result: Result<
    HotBench,
    TinyAgentError,
>)
    requires
        iterations > 0 ==> {
            &&& k * n <= usize::MAX
            &&& 4 * n <= usize::MAX
            &&& 2 * n * k <= usize::MAX
            &&& 2 * n * k * iterations <= u64::MAX
        },
    ensures
        match result {
            Ok(bench) => {
                &&& iterations > 0
                &&& bench.shape@ == "n="@ + decimal(n as nat) + ",k="@ + decimal(k as nat)
                &&& bench.logical_ops_per_iter == 2 * n * k
                &&& bench.total_ops == 2 * n * k * iterations
                &&& bench.inputs@ == seq![
                    half_input(k, 0xDEC0DE),
                    half_input((k * n) as usize, 0xDEC0DF),
                ]
                &&& bench.launch@ == matvec_launch(ProbeKernel::HotMatvec, n, k)
            },
            Err(error) => iterations == 0 && error@ == Fault::Configuration(
                "hot matvec benchmark iterations must be greater than zero"@,
            ),
        },
{
    if iterations == 0 {
        return Err(config_error("hot matvec benchmark iterations must be greater than zero"));
    }
    let logical_ops_per_iter: u64 = (2 * n * k) as u64;
    let inputs: Vec<BenchInput> = vec![half(k, 0xDEC0DE), half(k * n, 0xDEC0DF)];
    assert(inputs@ =~= seq![
        half_input(k, 0xDEC0DE),
        half_input((k * n) as usize, 0xDEC0DF),
    ]);
    Ok(
        HotBench {
            shape: cat4(
                "n=",
                decimal_usize(n).as_str(),
                ",k=",
                decimal_usize(k).as_str(),
            ),
            logical_ops_per_iter,
            total_ops: logical_ops_per_iter * (iterations as u64),
            inputs,
            launch: plan_matvec(ProbeKernel::HotMatvec, n, k),
        },
    )
}

/// The fault of a timed kernel whose first output is not finite.
pub fn check_hot_output(kernel: ProbeKernel, first_value: u32) -> (result: Result<
    (),
    TinyAgentError,
>)
    requires
        kernel == ProbeKernel::HotMatmul || kernel == ProbeKernel::HotMatvec,
    ensures
        match result {
            Ok(_) => first_value as int / 0x80_0000 % 256 != 255,
            Err(error) => first_value as int / 0x80_0000 % 256 == 255 && error@ == Fault::Backend(
                kernel.described() + " produced a non-finite output"@,
            ),
        },
{
    if is_finite(first_value) {
        Ok(())
    } else {
        Err(TinyAgentError::Backend(cat2(kernel.description(), " produced a non-finite output")))
    }
}

/// A kernel that is timed over and over: the product of an `m` by `k` and a
/// `k` by `n` matrix.
#[derive(Debug, Clone, Copy)]
pub struct HotCase {
    pub kernel: ProbeKernel,
    pub name: &'static str,
    pub m: usize,
    pub n: usize,
    pub k: usize,
}

/// The mathematical value of a `HotCase`.
#[verifier::ext_equal]
pub struct HotCaseView {
    pub kernel: ProbeKernel,
    pub name: Seq<char>,
    pub m: usize,
    pub n: usize,
    pub k: usize,
}

impl View for HotCase {
    type V = HotCaseView;

    open spec fn view(&self) -> HotCaseView {
        HotCaseView { kernel: self.kernel, name: self.name@, m: self.m, n: self.n, k: self.k }
    }
}

/// The kernels that a model of 1.5 billion parameters spends its time in.
pub open spec fn hot_cases() -> Seq<HotCaseView> {
    seq![
        HotCaseView {
            kernel: ProbeKernel::HotMatmul,
            name: "matmul_f16_1x1536x1536_hot"@,
            m: 1,
            n: 1536,
            k: 1536,
        },
        HotCaseView {
            kernel: ProbeKernel::HotMatvec,
            name: "matvec_f16_1536x1536_decode_hot"@,
            m: 1,
            n: 1536,
            k: 1536,
        },
    ]
}

/// The suite of timed kernels, which is refused without iterations.
pub fn run_qwen_15b_hot_bench(iterations: u32) -> (result: Result<Vec<HotCase>, TinyAgentError>)
    ensures
        match result {
            Ok(cases) => iterations > 0 && crate::text::views(cases@) == hot_cases(),
            Err(error) => iterations == 0 && error@ == Fault::Configuration(
                "hot benchmark iterations must be greater than zero"@,
            ),
        },
{
    if iterations == 0 {
        return Err(config_error("hot benchmark iterations must be greater than zero"));
    }
    let cases: Vec<HotCase> = vec![
        HotCase {
            kernel: ProbeKernel::HotMatmul,
            name: "matmul_f16_1x1536x1536_hot",
            m: 1,
            n: 1536,
            k: 1536,
        },
        HotCase {
            kernel: ProbeKernel::HotMatvec,
            name: "matvec_f16_1536x1536_decode_hot",
            m: 1,
            n: 1536,
            k: 1536,
        },
    ];
    assert(crate::text::views(cases@) =~= hot_cases());
    Ok(cases)
}

/// What numbers an input is made of.
#[derive(Debug, Clone, Copy, PartialEq, Eq, Structural)]
pub enum InputKind {
    Half,
    Single,
    /// Between minus one and one.
    Unit,
}

/// An input of a kernel, made from a seed.
#[derive(Debug, Clone, Copy, PartialEq, Eq, Structural)]
pub struct BenchInput {
    pub kind: InputKind,
    pub len: usize,
    pub seed: u32,
}

/// A kernel that is timed once, with its inputs in order.
#[derive(Debug)]
pub struct BenchCase {
    pub kernel: ProbeKernel,
    pub name: &'static str,
    pub shape: &'static str,
    pub logical_ops: u64,
    pub inputs: Vec<BenchInput>,
    pub output_len: usize,
}

/// The mathematical value of a `BenchCase`.
#[verifier::ext_equal]
pub struct CaseView {
    pub kernel: ProbeKernel,
    pub name: Seq<char>,
    pub shape: Seq<char>,
    pub logical_ops: u64,
    pub inputs: Seq<BenchInput>,
    pub output_len: usize,
}

impl View for BenchCase {
    type V = CaseView;

    open spec fn view(&self) -> CaseView {
        CaseView {
            kernel: self.kernel,
            name: self.name@,
            shape: self.shape@,
            logical_ops: self.logical_ops,
            inputs: self.inputs@,
            output_len: self.output_len,
        }
    }
}

pub open spec fn half_input(len: usize, seed: u32) -> BenchInput {
    BenchInput { kind: InputKind::Half, len, seed }
}

pub open spec fn single_input(len: usize, seed: u32) -> BenchInput {
    BenchInput { kind: InputKind::Single, len, seed }
}

pub open spec fn unit_input(len: usize, seed: u32) -> BenchInput {
    BenchInput { kind: InputKind::Unit, len, seed }
}

fn half(len: usize, seed: u32) -> (input: BenchInput)
    ensures
        input == half_input(len, seed),
{
    BenchInput { kind: InputKind::Half, len, seed }
}

fn single(len: usize, seed: u32) -> (input: BenchInput)
    ensures
        input == single_input(len, seed),
{
    BenchInput { kind: InputKind::Single, len, seed }
}

fn unit(len: usize, seed: u32) -> (input: BenchInput)
    ensures
        input == unit_input(len, seed),
{
    BenchInput { kind: InputKind::Unit, len, seed }
}

/// The kernels of the quick benchmark, in the sizes of a model of 1.5 billion
/// parameters.
pub open spec fn smoke_cases() -> Seq<CaseView> {
    seq![
        CaseView {
            kernel: ProbeKernel::Matmul,
            name: "matmul_f16_1x1536x1536"@,
            shape: "m=1,n=1536,k=1536"@,
            logical_ops: 4_718_592,
            inputs: seq![half_input(1536, 0xA11CE), half_input(2_359_296, 0xB0B)],
            output_len: 1536,
        },
        CaseView {
            kernel: ProbeKernel::Matvec,
            name: "matvec_f16_1536x1536_decode"@,
            shape: "n=1536,k=1536"@,
            logical_ops: 4_718_592,
            inputs: seq![half_input(1536, 0xDEC0DE), half_input(2_359_296, 0xDEC0DF)],
            output_len: 1536,
        },
        CaseView {
            kernel: ProbeKernel::RmsNorm,
            name: "rmsnorm_f16_1x1536"@,
            shape: "rows=1,cols=1536"@,
            logical_ops: 6_144,
            inputs: seq![half_input(1536, 0xC0FFEE), half_input(1536, 0xD00D)],
            output_len: 1536,
        },
        CaseView {
            kernel: ProbeKernel::Rope,
            name: "rope_f16_1x128"@,
            shape: "rows=1,dims=128"@,
            logical_ops: 768,
            inputs: seq![half_input(128, 0xFA57), unit_input(128, 0xC05), unit_input(128, 0x51A)],
            output_len: 128,
        },
        CaseView {
            kernel: ProbeKernel::Softmax,
            name: "softmax_f32_1x1024"@,
            shape: "rows=1,cols=1024"@,
            logical_ops: 5_120,
            inputs: seq![single_input(1024, 0x50F7)],
            output_len: 1024,
        },
        CaseView {
            kernel: ProbeKernel::Attention,
            name: "attention_decode_f16_seq128_dim128"@,
            shape: "seq=128,head_dim=128"@,
            logical_ops: 49_152,
            inputs: seq![
                half_input(128, 0x1234),
                half_input(16_384, 0x5678),
                half_input(16_384, 0x9ABC),
            ],
            output_len: 128,
        },
        CaseView {
            kernel: ProbeKernel::GreedySampler,
            name: "greedy_argmax_f32_vocab151936"@,
            shape: "vocab=151936"@,
            logical_ops: 151_936,
            inputs: seq![single_input(151_936, 0x515151)],
            output_len: 1,
        },
        CaseView {
            kernel: ProbeKernel::KvAppend,
            name: "kv_cache_append_f16_seq4096_dim128"@,
            shape: "seq=4096,head_dim=128,position=2048"@,
            logical_ops: 256,
            inputs: seq![
                half_input(524_288, 0xAA01),
                half_input(524_288, 0xAA02),
                half_input(128, 0xAA03),
                half_input(128, 0xAA04),
            ],
            output_len: 524_288,
        },
    ]
}

pub fn run_qwen_15b_smoke_bench() -> (cases: Vec<BenchCase>)
    ensures
        crate::text::views(cases@) == smoke_cases(),
{
    let cases: Vec<BenchCase> = vec![
        BenchCase {
            kernel: ProbeKernel::Matmul,
            name: "matmul_f16_1x1536x1536",
            shape: "m=1,n=1536,k=1536",
            logical_ops: 2 * 1536 * 1536,
            inputs: vec![half(1536, 0xA11CE), half(1536 * 1536, 0xB0B)],
            output_len: 1536,
        },
        BenchCase {
            kernel: ProbeKernel::Matvec,
            name: "matvec_f16_1536x1536_decode",
            shape: "n=1536,k=1536",
            logical_ops: 2 * 1536 * 1536,
            inputs: vec![half(1536, 0xDEC0DE), half(1536 * 1536, 0xDEC0DF)],
            output_len: 1536,
        },
        BenchCase {
            kernel: ProbeKernel::RmsNorm,
            name: "rmsnorm_f16_1x1536",
            shape: "rows=1,cols=1536",
            logical_ops: 1536 * 4,
            inputs: vec![half(1536, 0xC0FFEE), half(1536, 0xD00D)],
            output_len: 1536,
        },
        BenchCase {
            kernel: ProbeKernel::Rope,
            name: "rope_f16_1x128",
            shape: "rows=1,dims=128",
            logical_ops: 128 * 6,
            inputs: vec![half(128, 0xFA57), unit(128, 0xC05), unit(128, 0x51A)],
            output_len: 128,
        },
        BenchCase {
            kernel: ProbeKernel::Softmax,
            name: "softmax_f32_1x1024",
            shape: "rows=1,cols=1024",
            logical_ops: 1024 * 5,
            inputs: vec![single(1024, 0x50F7)],
            output_len: 1024,
        },
        BenchCase {
            kernel: ProbeKernel::Attention,
            name: "attention_decode_f16_seq128_dim128",
            shape: "seq=128,head_dim=128",
            logical_ops: 2 * 128 * 128 + 128 * 128,
            inputs: vec![half(128, 0x1234), half(128 * 128, 0x5678), half(128 * 128, 0x9ABC)],
            output_len: 128,
        },
        BenchCase {
            kernel: ProbeKernel::GreedySampler,
            name: "greedy_argmax_f32_vocab151936",
            shape: "vocab=151936",
            logical_ops: 151_936,
            inputs: vec![single(151_936, 0x515151)],
            output_len: 1,
        },
        BenchCase {
            kernel: ProbeKernel::KvAppend,
            name: "kv_cache_append_f16_seq4096_dim128",
            shape: "seq=4096,head_dim=128,position=2048",
            logical_ops: 128 * 2,
            inputs: vec![
                half(4096 * 128, 0xAA01),
                half(4096 * 128, 0xAA02),
                half(128, 0xAA03),
                half(128, 0xAA04),
            ],
            output_len: 4096 * 128,
        },
    ];
    proof {
        assert forall|i: int| 0 <= i < 8 implies #[trigger] cases@[i]@ == smoke_cases()[i] by {
            assert(cases@[i]@.inputs =~= smoke_cases()[i].inputs);
        }
        assert(crate::text::views(cases@) =~= smoke_cases());
    }
    cases
}

/// The tiles of a product of matrices just cover its rows and its columns, and
/// the kernel is told how many rows, columns and products there are.
pub proof fn tiles_cover_the_product(kernel: ProbeKernel, m: usize, n: usize, k: usize)
    requires
        m <= u32::MAX,
        n <= u32::MAX,
        k <= u32::MAX,
    ensures
        ({
            let launched = matmul_launch(kernel, m, n, k);
            &&& launched.kernel == kernel
            &&& launched.grid is Groups
            &&& just_enough(launched.grid->Groups_0.height as int, 16, m as int)
            &&& just_enough(launched.grid->Groups_0.width as int, 16, n as int)
            &&& launched.grid->Groups_0.depth == 1
            &&& launched.threads == Size { width: 16, height: 16, depth: 1 }
            &&& launched.dims.len() == 3 && launched.dims[0] == m && launched.dims[1] == n
                && launched.dims[2] == k
            &&& launched.output_len == m * n
            &&& launched.output_bytes == 4 * (m * n)
        }),
        ({
            let launched = matvec_launch(kernel, n, k);
            &&& launched.kernel == kernel
            &&& launched.grid is Groups
            &&& just_enough(launched.grid->Groups_0.width as int, 16, n as int)
            &&& launched.grid->Groups_0.height == 1 && launched.grid->Groups_0.depth == 1
            &&& launched.threads == Size { width: 16, height: 16, depth: 1 }
            &&& launched.dims.len() == 2 && launched.dims[0] == n && launched.dims[1] == k
            &&& launched.output_len == n
            &&& launched.output_bytes == 4 * n
        }),
{
    lemma_just_enough(m as nat, 16);
    lemma_just_enough(n as nat, 16);
    assert(0 <= m * n) by (nonlinear_arith)
        requires
            0 <= m,
            0 <= n,
    ;
}

/// A kernel with a group per row has a group for each row, and is told how many
/// rows and columns there are.
pub proof fn groups_cover_the_rows(kernel: ProbeKernel, rows: usize, cols: usize)
    requires
        rows <= u32::MAX,
        cols <= u32::MAX,
    ensures
        ({
            let launched = row_launch(kernel, rows, cols);
            &&& launched.kernel == kernel
            &&& launched.grid == Grid::Groups(
                Size { width: rows as u64, height: 1, depth: 1 },
            )
            &&& launched.threads == Size { width: 256, height: 1, depth: 1 }
            &&& launched.dims.len() == 2 && launched.dims[0] == rows && launched.dims[1] == cols
            &&& launched.output_len == rows * cols
            &&& launched.output_bytes == 4 * (rows * cols)
        }),
{
    assert(0 <= rows * cols) by (nonlinear_arith)
        requires
            0 <= rows,
            0 <= cols,
    ;
}

/// Where an operand stands among those of its kernel: what is given, as it is
/// counted, then what is written, then the numbers, then the float.
pub open spec fn operand_rank(operand: Operand) -> int {
    match operand {
        Operand::Input(count) => count as int,
        Operand::Updated(count) => count as int,
        Operand::Output(count) => 10 + count,
        Operand::Dims => 20,
        Operand::Number => 21,
    }
}

/// The operands of every kernel stand in one order, none of them twice: the
/// vectors that it is given, those that it writes, its numbers, its float. Only
/// what is appended to a cache is written where it was given.
pub proof fn operands_stand_in_order(kernel: ProbeKernel, left: int, right: int)
    requires
        0 <= left < right < kernel.operand_list().len(),
    ensures
        operand_rank(kernel.operand_list()[left]) < operand_rank(kernel.operand_list()[right]),
        kernel.operand_list()[0] == if kernel == ProbeKernel::KvAppend {
            Operand::Updated(0)
        } else {
            Operand::Input(0)
        },
        kernel.operand_list()[left] is Updated <==> kernel == ProbeKernel::KvAppend && left < 2,
        kernel.operand_list().contains(Operand::Number) <==> kernel == ProbeKernel::RmsNorm
            || kernel == ProbeKernel::Attention,
        kernel.operand_list().contains(Operand::Dims) <==> kernel != ProbeKernel::VectorAdd,
{
    let list = kernel.operand_list();
    if kernel == ProbeKernel::RmsNorm {
        assert(list[4] == Operand::Number && list[3] == Operand::Dims);
    } else if kernel == ProbeKernel::Attention {
        assert(list[5] == Operand::Number && list[4] == Operand::Dims);
    } else if kernel == ProbeKernel::Softmax {
        assert(list[2] == Operand::Dims);
    } else if kernel == ProbeKernel::Rope || kernel == ProbeKernel::KvAppend {
        assert(list[4] == Operand::Dims);
    } else if kernel != ProbeKernel::VectorAdd {
        assert(list[3] == Operand::Dims);
    }
}

/// Rows are rotated just where their numbers come in pairs and the lengths fit.
pub proof fn rotation_needs_pairs(x_len: usize, cos_len: usize, sin_len: usize, rows: usize, dims: usize)
    ensures
        rope_refusal(x_len, cos_len, sin_len, rows, dims) is None <==> dims % 2 == 0 && x_len == rows
            * dims && cos_len == dims && sin_len == dims,
{
}

/// A query is answered just where the past is short enough and the lengths fit.
pub proof fn attention_needs_its_past(q_len: usize, k_len: usize, v_len: usize, seq: usize, head_dim: usize)
    ensures
        attention_refusal(q_len, k_len, v_len, seq, head_dim) is None <==> seq <= 256 && q_len
            == head_dim && k_len == seq * head_dim && v_len == seq * head_dim,
{
}

/// A key and a value are appended just where the position is one of the cache
/// and the lengths fit.
pub proof fn appending_needs_a_position(
    k_len: usize,
    v_len: usize,
    k_new: usize,
    v_new: usize,
    seq: usize,
    head_dim: usize,
    position: usize,
)
    ensures
        append_refusal(k_len, v_len, k_new, v_new, seq, head_dim, position) is None <==> position
            < seq && k_len == seq * head_dim && v_len == seq * head_dim && k_new == head_dim
            && v_new == head_dim,
{
}

} // verus!
