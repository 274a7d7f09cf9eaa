//! Projections: where they run, what is checked first, and how the GPU is
//! asked for several at once.

use crate::error::{config_error, config_outcome, Fault, TinyAgentError};
use crate::hf_config::QwenRuntimeConfig;
use crate::kv_cache::{row_of, row_span, KvCache, RowSpan};
use crate::model::{
    ensure_len, kv_dim, len_refusal, ModelImage, QwenLayer, QwenProjectionBackend,
    QwenRuntimeModel,
};
use crate::plan::{
    check_q4, div_ceil, layer_calls, line, line_of, parts, q4_refusal, BufferName, Kernel,
    LayerBuffer, LayerUploads, Projection, Size, TensorBuffer, Upload,
};
use crate::quant::{
    bias_mismatch, bias_mismatch_error, checked, matvec_refusal, QuantEncoding, QuantTensor,
};
use crate::text::{cat2, cat6, decimal, decimal_usize};
use vstd::prelude::*;
use vstd::string::StringExecFns;

verus! {

/// A projection that is asked for. Of the bias only the length counts here.
pub struct ProjectionRequest<'a> {
    pub tensor: &'a QuantTensor,
    pub bias_len: Option<usize>,
    pub upload: Option<Upload>,
}

/// Where a projection runs.
#[derive(Debug, Clone, Copy, PartialEq, Eq, Structural)]
pub enum ProjectionRoute {
    Cpu,
    MetalQ4,
    MetalQ8,
}

/// Where a projection by a matrix runs, and the refusal where the GPU is asked
/// for and not there.
pub open spec fn route_of(
    backend: QwenProjectionBackend,
    has_runtime: bool,
    encoding: QuantEncoding,
) -> Result<ProjectionRoute, Seq<char>> {
    match backend {
        QwenProjectionBackend::Cpu => Ok(ProjectionRoute::Cpu),
        QwenProjectionBackend::Metal => if !has_runtime {
            Err("Metal projection backend missing runtime"@)
        } else if encoding == QuantEncoding::GgufQ8_0 {
            Ok(ProjectionRoute::MetalQ8)
        } else {
            Ok(ProjectionRoute::MetalQ4)
        },
    }
}

impl View for ProjectionRoute {
    type V = ProjectionRoute;

    open spec fn view(&self) -> ProjectionRoute {
        *self
    }
}

pub fn project_quant(
    backend: QwenProjectionBackend,
    has_runtime: bool,
    encoding: QuantEncoding,
) -> (result: Result<ProjectionRoute, TinyAgentError>)
    ensures
        config_outcome(result, route_of(backend, has_runtime, encoding)),
{
    match backend {
        QwenProjectionBackend::Cpu => Ok(ProjectionRoute::Cpu),
        QwenProjectionBackend::Metal => {
            if !has_runtime {
                Err(config_error("Metal projection backend missing runtime"))
            } else if encoding == QuantEncoding::GgufQ8_0 {
                Ok(ProjectionRoute::MetalQ8)
            } else {
                Ok(ProjectionRoute::MetalQ4)
            }
        },
    }
}

pub open spec fn batched_mismatch(
    name: Seq<char>,
    input_len: usize,
    batch: usize,
    in_dim: usize,
) -> Seq<char> {
    name + " batched input length "@ + decimal(input_len as nat) + " does not match batch "@
        + decimal(batch as nat) + " * "@ + decimal(in_dim as nat)
}

fn batched_mismatch_error(name: &str, input_len: usize, batch: usize, in_dim: usize) -> (error:
    TinyAgentError)
    ensures
        error@ == Fault::Configuration(batched_mismatch(name@, input_len, batch, in_dim)),
{
    let mut text = cat6(
        name,
        " batched input length ",
        decimal_usize(input_len).as_str(),
        " does not match batch ",
        decimal_usize(batch).as_str(),
        " * ",
    );
    text.append(decimal_usize(in_dim).as_str());
    TinyAgentError::Configuration(text)
}

/// What refuses the input or the bias of a projection of several rows.
pub open spec fn batched_refusal(
    name: Seq<char>,
    in_dim: usize,
    out_dim: usize,
    input_len: usize,
    batch: usize,
    bias_len: Option<usize>,
) -> Option<Seq<char>> {
    if input_len != batch * in_dim {
        Some(batched_mismatch(name, input_len, batch, in_dim))
    } else if bias_len is Some && bias_len->0 != out_dim {
        Some(bias_mismatch(name, bias_len->0, out_dim))
    } else {
        None
    }
}

fn check_batched(tensor: &QuantTensor, input_len: usize, batch: usize, bias_len: Option<usize>) -> (result: Result<
    (),
    TinyAgentError,
>)
    requires
        batch * tensor.in_dim <= usize::MAX,
    ensures
        config_outcome(
            result,
            checked(
                batched_refusal(
                    tensor.name@,
                    tensor.in_dim,
                    tensor.out_dim,
                    input_len,
                    batch,
                    bias_len,
                ),
            ),
        ),
{
    if input_len != batch * tensor.in_dim {
        return Err(
            batched_mismatch_error(tensor.name.as_str(), input_len, batch, tensor.in_dim),
        );
    }
    if let Some(len) = bias_len {
        if len != tensor.out_dim {
            return Err(bias_mismatch_error(tensor.name.as_str(), len, tensor.out_dim));
        }
    }
    Ok(())
}

/// Where a projection of several rows runs, after the checks that come first.
pub fn project_quant_batched(
    backend: QwenProjectionBackend,
    has_runtime: bool,
    tensor: &QuantTensor,
    input_len: usize,
    batch: usize,
    bias_len: Option<usize>,
) -> (result: Result<ProjectionRoute, TinyAgentError>)
    requires
        batch * tensor.in_dim <= usize::MAX,
    ensures
        config_outcome(
            result,
            if batch == 0 {
                Err("batched projection requires a non-empty batch"@)
            } else {
                match batched_refusal(
                    tensor.name@,
                    tensor.in_dim,
                    tensor.out_dim,
                    input_len,
                    batch,
                    bias_len,
                ) {
                    Some(text) => Err(text),
                    None => route_of(backend, has_runtime, QuantEncoding::AffineQ4),
                }
            },
        ),
{
    if batch == 0 {
        return Err(config_error("batched projection requires a non-empty batch"));
    }
    if let Err(error) = check_batched(tensor, input_len, batch, bias_len) {
        return Err(error);
    }
    project_quant(backend, has_runtime, QuantEncoding::AffineQ4)
}

/// A request with a bias of the given length.
pub open spec fn asks_for(
    request: ProjectionRequest,
    tensor: QuantTensor,
    bias_len: Option<nat>,
    upload: Option<Upload>,
) -> bool {
    &&& *request.tensor == tensor
    &&& request.upload == upload
    &&& match bias_len {
        Some(len) => request.bias_len is Some && request.bias_len->0 == len,
        None => request.bias_len is None,
    }
}

impl QwenLayer {
    /// The projections to queries, keys and values, each with its bias.
    pub fn project_qkv(&self, uploads: &LayerUploads) -> (requests: Vec<ProjectionRequest<'_>>)
        ensures
            requests@.len() == 3,
            asks_for(requests@[0], self.q_proj, Some(self.q_bias@.len()), uploads.q),
            asks_for(requests@[1], self.k_proj, Some(self.k_bias@.len()), uploads.k),
            asks_for(requests@[2], self.v_proj, Some(self.v_bias@.len()), uploads.v),
    {
        let mut requests: Vec<ProjectionRequest<'_>> = Vec::new();
        requests.push(
            ProjectionRequest {
                tensor: &self.q_proj,
                bias_len: Some(self.q_bias.len()),
                upload: uploads.q,
            },
        );
        requests.push(
            ProjectionRequest {
                tensor: &self.k_proj,
                bias_len: Some(self.k_bias.len()),
                upload: uploads.k,
            },
        );
        requests.push(
            ProjectionRequest {
                tensor: &self.v_proj,
                bias_len: Some(self.v_bias.len()),
                upload: uploads.v,
            },
        );
        requests
    }

    /// The projections of the feed-forward part that share their input, neither
    /// with a bias.
    pub fn project_gate_up(&self, uploads: &LayerUploads) -> (requests: Vec<ProjectionRequest<'_>>)
        ensures
            requests@.len() == 2,
            asks_for(requests@[0], self.gate_proj, None, uploads.gate),
            asks_for(requests@[1], self.up_proj, None, uploads.up),
    {
        let mut requests: Vec<ProjectionRequest<'_>> = Vec::new();
        requests.push(
            ProjectionRequest { tensor: &self.gate_proj, bias_len: None, upload: uploads.gate },
        );
        requests.push(
            ProjectionRequest { tensor: &self.up_proj, bias_len: None, upload: uploads.up },
        );
        requests
    }
}

/// Something that the kernel of a projection is handed.
#[derive(Debug, Clone, Copy, PartialEq, Eq, Structural)]
pub enum ProjectionArgument {
    /// The rows that are projected.
    Input,
    /// A buffer of the matrix.
    Tensor(TensorBuffer),
    /// The scratch buffer that holds the bias.
    Bias(usize),
    /// The output of the matrix itself.
    TensorOutput,
    /// The scratch buffer that the rows are written to.
    ScratchOutput(usize),
    /// How many rows there are.
    Batch,
}

/// One projection of a batch of calls: its kernel, which of the scratch
/// buffers holds its bias, if it has one, and which takes its output, if the
/// matrix does not, its grid, and the length of its output.
#[derive(Debug, Clone, Copy, PartialEq, Eq, Structural)]
pub struct ProjectionStep {
    pub kernel: Kernel,
    pub bias_slot: Option<usize>,
    pub output_slot: Option<usize>,
    pub groups: Size,
    pub threads: Size,
    pub output_len: usize,
    pub output_bytes: u64,
}

impl ProjectionStep {
    /// The bias that is added: zeros where the projection has none.
    pub open spec fn bias_argument(self) -> ProjectionArgument {
        match self.bias_slot {
            Some(slot) => ProjectionArgument::Bias(slot),
            None => ProjectionArgument::Tensor(TensorBuffer::ZeroLinearBias),
        }
    }

    pub open spec fn output_argument(self) -> ProjectionArgument {
        match self.output_slot {
            Some(slot) => ProjectionArgument::ScratchOutput(slot),
            None => ProjectionArgument::TensorOutput,
        }
    }

    /// What the kernel is handed, in order. Only a kernel that takes several
    /// rows is told how many there are.
    pub open spec fn argument_list(self) -> Seq<ProjectionArgument> {
        let matrix = if self.kernel == Kernel::Q8Matvec {
            seq![
                ProjectionArgument::Tensor(TensorBuffer::Q8Values),
                ProjectionArgument::Tensor(TensorBuffer::Scales),
            ]
        } else {
            seq![
                ProjectionArgument::Tensor(TensorBuffer::Q4Weight),
                ProjectionArgument::Tensor(TensorBuffer::Scales),
                ProjectionArgument::Tensor(TensorBuffer::Biases),
            ]
        };
        let batch = if self.kernel == Kernel::Q4Matmul {
            seq![ProjectionArgument::Batch]
        } else {
            Seq::empty()
        };
        seq![ProjectionArgument::Input] + matrix + seq![
            self.bias_argument(),
            self.output_argument(),
            ProjectionArgument::Tensor(TensorBuffer::Dims),
        ] + batch
    }

    pub fn arguments(&self) -> (arguments: Vec<ProjectionArgument>)
        requires
            self.kernel.is_projection(),
        ensures
            arguments@ == self.argument_list(),
    {
        let mut arguments: Vec<ProjectionArgument> = vec![ProjectionArgument::Input];
        if self.kernel == Kernel::Q8Matvec {
            arguments.push(ProjectionArgument::Tensor(TensorBuffer::Q8Values));
            arguments.push(ProjectionArgument::Tensor(TensorBuffer::Scales));
        } else {
            arguments.push(ProjectionArgument::Tensor(TensorBuffer::Q4Weight));
            arguments.push(ProjectionArgument::Tensor(TensorBuffer::Scales));
            arguments.push(ProjectionArgument::Tensor(TensorBuffer::Biases));
        }
        arguments.push(
            match self.bias_slot {
                Some(slot) => ProjectionArgument::Bias(slot),
                None => ProjectionArgument::Tensor(TensorBuffer::ZeroLinearBias),
            },
        );
        arguments.push(
            match self.output_slot {
                Some(slot) => ProjectionArgument::ScratchOutput(slot),
                None => ProjectionArgument::TensorOutput,
            },
        );
        arguments.push(ProjectionArgument::Tensor(TensorBuffer::Dims));
        if self.kernel == Kernel::Q4Matmul {
            arguments.push(ProjectionArgument::Batch);
        }
        assert(arguments@ =~= self.argument_list());
        arguments
    }
}

/// How many of the first `count` requests have a bias.
pub open spec fn bias_count(requests: Seq<ProjectionRequest>, count: int) -> int
    decreases count,
{
    if count <= 0 {
        0
    } else {
        bias_count(requests, count - 1) + if requests[count - 1].bias_len is Some {
            1int
        } else {
            0
        }
    }
}

/// The scratch buffer of a request's bias: requests with a bias count from
/// zero on.
pub open spec fn bias_slot(requests: Seq<ProjectionRequest>, index: int) -> Option<usize> {
    if requests[index].bias_len is Some {
        Some(bias_count(requests, index) as usize)
    } else {
        None
    }
}

proof fn lemma_bias_count(requests: Seq<ProjectionRequest>, count: int)
    requires
        0 <= count,
    ensures
        0 <= bias_count(requests, count) <= count,
    decreases count,
{
    if count > 0 {
        lemma_bias_count(requests, count - 1);
    }
}

/// Different requests with a bias have different scratch buffers, all below
/// the number of buffers.
pub proof fn bias_slots_are_distinct(requests: Seq<ProjectionRequest>, left: int, right: int)
    requires
        0 <= left < right < requests.len() <= usize::MAX,
        requests[left].bias_len is Some,
        requests[right].bias_len is Some,
    ensures
        bias_slot(requests, left)->0 < bias_slot(requests, right)->0,
        bias_slot(requests, right)->0 < bias_count(requests, requests.len() as int),
    decreases requests.len() - left,
{
    lemma_bias_count(requests, left);
    lemma_bias_count(requests, right);
    lemma_bias_grows(requests, left + 1, right);
    lemma_bias_grows(requests, right + 1, requests.len() as int);
}

proof fn lemma_bias_grows(requests: Seq<ProjectionRequest>, fewer: int, more: int)
    requires
        0 <= fewer <= more,
    ensures
        bias_count(requests, fewer) <= bias_count(requests, more),
    decreases more,
{
    if fewer < more {
        lemma_bias_grows(requests, fewer, more - 1);
    }
}

/// The first refusal among the first `count` requests, of one row each.
pub open spec fn rows_refusal(requests: Seq<ProjectionRequest>, input_len: usize, count: int) -> Option<
    Seq<char>,
>
    decreases count,
{
    if count <= 0 {
        None
    } else {
        let before = rows_refusal(requests, input_len, count - 1);
        let request = requests[count - 1];
        if before is Some {
            before
        } else if request.tensor.encoding != QuantEncoding::AffineQ4 {
            Some(request.tensor.name@ + " cannot run on the q4 Metal kernel"@)
        } else {
            matvec_refusal(
                request.tensor.name@,
                request.tensor.in_dim,
                request.tensor.out_dim,
                input_len,
                request.bias_len,
            )
        }
    }
}

/// The first refusal among the first `count` requests, of several rows each.
pub open spec fn batches_refusal(
    requests: Seq<ProjectionRequest>,
    input_len: usize,
    batch: usize,
    count: int,
) -> Option<Seq<char>>
    decreases count,
{
    if count <= 0 {
        None
    } else {
        let before = batches_refusal(requests, input_len, batch, count - 1);
        let request = requests[count - 1];
        if before is Some {
            before
        } else if request.tensor.encoding != QuantEncoding::AffineQ4 {
            Some(request.tensor.name@ + " cannot run on the batched q4 Metal kernel"@)
        } else {
            batched_refusal(
                request.tensor.name@,
                request.tensor.in_dim,
                request.tensor.out_dim,
                input_len,
                batch,
                request.bias_len,
            )
        }
    }
}

/// The first of the first `count` requests whose matrix is not on the GPU.
pub open spec fn uploads_refusal(requests: Seq<ProjectionRequest>, count: int) -> Option<Seq<char>>
    decreases count,
{
    if count <= 0 {
        None
    } else {
        let before = uploads_refusal(requests, count - 1);
        if before is Some {
            before
        } else {
            q4_refusal(requests[count - 1].tensor.name@, requests[count - 1].upload)
        }
    }
}

proof fn lemma_rows_refusal_stays(
    requests: Seq<ProjectionRequest>,
    input_len: usize,
    fewer: int,
    more: int,
)
    requires
        0 <= fewer <= more,
        rows_refusal(requests, input_len, fewer) is Some,
    ensures
        rows_refusal(requests, input_len, more) == rows_refusal(requests, input_len, fewer),
    decreases more,
{
    if fewer < more {
        lemma_rows_refusal_stays(requests, input_len, fewer, more - 1);
    }
}

proof fn lemma_batches_refusal_stays(
    requests: Seq<ProjectionRequest>,
    input_len: usize,
    batch: usize,
    fewer: int,
    more: int,
)
    requires
        0 <= fewer <= more,
        batches_refusal(requests, input_len, batch, fewer) is Some,
    ensures
        batches_refusal(requests, input_len, batch, more) == batches_refusal(
            requests,
            input_len,
            batch,
            fewer,
        ),
    decreases more,
{
    if fewer < more {
        lemma_batches_refusal_stays(requests, input_len, batch, fewer, more - 1);
    }
}

proof fn lemma_uploads_refusal_stays(requests: Seq<ProjectionRequest>, fewer: int, more: int)
    requires
        0 <= fewer <= more,
        uploads_refusal(requests, fewer) is Some,
    ensures
        uploads_refusal(requests, more) == uploads_refusal(requests, fewer),
    decreases more,
{
    if fewer < more {
        lemma_uploads_refusal_stays(requests, fewer, more - 1);
    }
}

/// A request for one row.
pub open spec fn row_step(requests: Seq<ProjectionRequest>, index: int) -> ProjectionStep {
    let out_dim = requests[index].tensor.out_dim;
    ProjectionStep {
        kernel: Kernel::Q4Matvec,
        bias_slot: bias_slot(requests, index),
        output_slot: None,
        groups: line(parts(out_dim as nat, 8) as u64),
        threads: line(128),
        output_len: out_dim,
        output_bytes: (4 * out_dim) as u64,
    }
}

/// A request for several rows.
pub open spec fn batch_step(requests: Seq<ProjectionRequest>, batch: usize, index: int) -> ProjectionStep {
    let out_dim = requests[index].tensor.out_dim;
    ProjectionStep {
        kernel: Kernel::Q4Matmul,
        bias_slot: bias_slot(requests, index),
        output_slot: Some(index as usize),
        groups: Size {
            width: out_dim as u64,
            height: parts(batch as nat, 8) as u64,
            depth: 1,
        },
        threads: line(128),
        output_len: (batch * out_dim) as usize,
        output_bytes: (4 * (batch * out_dim)) as u64,
    }
}

/// The steps of several projections of one row.
pub open spec fn row_steps(requests: Seq<ProjectionRequest>, input_len: usize) -> Result<
    Seq<ProjectionStep>,
    Seq<char>,
> {
    let count = requests.len() as int;
    if rows_refusal(requests, input_len, count) is Some {
        Err(rows_refusal(requests, input_len, count)->0)
    } else if uploads_refusal(requests, count) is Some {
        Err(uploads_refusal(requests, count)->0)
    } else {
        Ok(Seq::new(requests.len(), |i: int| row_step(requests, i)))
    }
}

/// The steps of several projections of several rows.
pub open spec fn batch_steps(requests: Seq<ProjectionRequest>, input_len: usize, batch: usize) -> Result<
    Seq<ProjectionStep>,
    Seq<char>,
> {
    let count = requests.len() as int;
    if count == 0 {
        Ok(Seq::empty())
    } else if batch == 0 {
        Err("batched Metal projection requires a non-empty batch"@)
    } else if batches_refusal(requests, input_len, batch, count) is Some {
        Err(batches_refusal(requests, input_len, batch, count)->0)
    } else if uploads_refusal(requests, count) is Some {
        Err(uploads_refusal(requests, count)->0)
    } else {
        Ok(Seq::new(requests.len(), |i: int| batch_step(requests, batch, i)))
    }
}

fn check_uploads(requests: &Vec<ProjectionRequest>) -> (result: Result<(), TinyAgentError>)
    ensures
        config_outcome(result, checked(uploads_refusal(requests@, requests@.len() as int))),
{
    let mut index: usize = 0;
    while index < requests.len()
        invariant
            index <= requests@.len(),
            uploads_refusal(requests@, index as int) is None,
        decreases requests@.len() - index,
    {
        if let Err(error) = check_q4(
            requests[index].tensor.name.as_str(),
            &requests[index].upload,
        ) {
            proof {
                lemma_uploads_refusal_stays(requests@, index + 1, requests@.len() as int);
            }
            return Err(error);
        }
        index = index + 1;
    }
    Ok(())
}

/// The steps of several projections of one row, which share their input.
pub fn matvec_many(requests: &Vec<ProjectionRequest>, input_len: usize) -> (result: Result<
    Vec<ProjectionStep>,
    TinyAgentError,
>)
    requires
        forall|i: int|
            0 <= i < requests@.len() ==> 4 * (#[trigger] requests@[i]).tensor.out_dim <= usize::MAX,
    ensures
        config_outcome(result, row_steps(requests@, input_len)),
{
    let mut index: usize = 0;
    while index < requests.len()
        invariant
            index <= requests@.len(),
            rows_refusal(requests@, input_len, index as int) is None,
        decreases requests@.len() - index,
    {
        let request = &requests[index];
        if request.tensor.encoding != QuantEncoding::AffineQ4 {
            proof {
                lemma_rows_refusal_stays(requests@, input_len, index + 1, requests@.len() as int);
            }
            return Err(
                TinyAgentError::Configuration(
                    cat2(request.tensor.name.as_str(), " cannot run on the q4 Metal kernel"),
                ),
            );
        }
        if let Err(error) = request.tensor.validate_matvec_input(input_len, request.bias_len) {
            proof {
                lemma_rows_refusal_stays(requests@, input_len, index + 1, requests@.len() as int);
            }
            return Err(error);
        }
        index = index + 1;
    }
    if let Err(error) = check_uploads(requests) {
        return Err(error);
    }
    let mut steps: Vec<ProjectionStep> = Vec::new();
    let mut next_bias: usize = 0;
    let mut index: usize = 0;
    while index < requests.len()
        invariant
            index <= requests@.len(),
            next_bias == bias_count(requests@, index as int) <= index,
            steps@ == Seq::new(index as nat, |i: int| row_step(requests@, i)),
            forall|i: int|
                0 <= i < requests@.len() ==> 4 * (#[trigger] requests@[i]).tensor.out_dim
                    <= usize::MAX,
        decreases requests@.len() - index,
    {
        let request = &requests[index];
        let bias_slot: Option<usize> = match request.bias_len {
            Some(_) => Some(next_bias),
            None => None,
        };
        steps.push(
            ProjectionStep {
                kernel: Kernel::Q4Matvec,
                bias_slot,
                output_slot: None,
                groups: line_of(div_ceil(request.tensor.out_dim, 8) as u64),
                threads: line_of(128),
                output_len: request.tensor.out_dim,
                output_bytes: (4 * request.tensor.out_dim) as u64,
            },
        );
        if request.bias_len.is_some() {
            next_bias = next_bias + 1;
        }
        index = index + 1;
        assert(steps@ =~= Seq::new(index as nat, |i: int| row_step(requests@, i)));
    }
    Ok(steps)
}

/// The steps of several projections of several rows, which share their input.
pub fn matmul_many_batched(requests: &Vec<ProjectionRequest>, input_len: usize, batch: usize) -> (result: Result<
    Vec<ProjectionStep>,
    TinyAgentError,
>)
    requires
        forall|i: int|
            0 <= i < requests@.len() ==> batch * (#[trigger] requests@[i]).tensor.in_dim
                <= usize::MAX && 4 * (batch * requests@[i].tensor.out_dim) <= usize::MAX,
    ensures
        config_outcome(result, batch_steps(requests@, input_len, batch)),
{
    if requests.len() == 0 {
        let steps: Vec<ProjectionStep> = Vec::new();
        assert(steps@ =~= Seq::<ProjectionStep>::empty());
        return Ok(steps);
    }
    if batch == 0 {
        return Err(config_error("batched Metal projection requires a non-empty batch"));
    }
    let mut index: usize = 0;
    while index < requests.len()
        invariant
            0 < batch,
            index <= requests@.len(),
            0 < requests@.len(),
            batches_refusal(requests@, input_len, batch, index as int) is None,
            forall|i: int|
                0 <= i < requests@.len() ==> batch * (#[trigger] requests@[i]).tensor.in_dim
                    <= usize::MAX,
        decreases requests@.len() - index,
    {
        let request = &requests[index];
        if request.tensor.encoding != QuantEncoding::AffineQ4 {
            proof {
                lemma_batches_refusal_stays(
                    requests@,
                    input_len,
                    batch,
                    index + 1,
                    requests@.len() as int,
                );
            }
            return Err(
                TinyAgentError::Configuration(
                    cat2(
                        request.tensor.name.as_str(),
                        " cannot run on the batched q4 Metal kernel",
                    ),
                ),
            );
        }
        if let Err(error) = check_batched(request.tensor, input_len, batch, request.bias_len) {
            proof {
                lemma_batches_refusal_stays(
                    requests@,
                    input_len,
                    batch,
                    index + 1,
                    requests@.len() as int,
                );
            }
            return Err(error);
        }
        index = index + 1;
    }
    if let Err(error) = check_uploads(requests) {
        return Err(error);
    }
    let mut steps: Vec<ProjectionStep> = Vec::new();
    let mut next_bias: usize = 0;
    let mut index: usize = 0;
    while index < requests.len()
        invariant
            index <= requests@.len(),
            next_bias == bias_count(requests@, index as int) <= index,
            steps@ == Seq::new(index as nat, |i: int| batch_step(requests@, batch, i)),
            forall|i: int|
                0 <= i < requests@.len() ==> 4 * (batch * (
                #[trigger] requests@[i]).tensor.out_dim) <= usize::MAX,
        decreases requests@.len() - index,
    {
        let request = &requests[index];
        let bias_slot: Option<usize> = match request.bias_len {
            Some(_) => Some(next_bias),
            None => None,
        };
        proof {
            assert(0 <= batch * request.tensor.out_dim) by (nonlinear_arith)
                requires
                    0 <= batch,
                    0 <= request.tensor.out_dim,
            ;
        }
        let output_len: usize = batch * request.tensor.out_dim;
        steps.push(
            ProjectionStep {
                kernel: Kernel::Q4Matmul,
                bias_slot,
                output_slot: Some(index),
                groups: Size {
                    width: request.tensor.out_dim as u64,
                    height: div_ceil(batch, 8) as u64,
                    depth: 1,
                },
                threads: line_of(128),
                output_len,
                output_bytes: (4 * output_len) as u64,
            },
        );
        if request.bias_len.is_some() {
            next_bias = next_bias + 1;
        }
        index = index + 1;
        assert(steps@ =~= Seq::new(index as nat, |i: int| batch_step(requests@, batch, i)));
    }
    Ok(steps)
}

/// The step of a projection by a matrix of bytes.
pub open spec fn q8_step(request: ProjectionRequest, input_len: usize) -> Result<
    ProjectionStep,
    Seq<char>,
> {
    let tensor = request.tensor;
    let refusal = matvec_refusal(
        tensor.name@,
        tensor.in_dim,
        tensor.out_dim,
        input_len,
        request.bias_len,
    );
    if tensor.encoding != QuantEncoding::GgufQ8_0 {
        Err(tensor.name@ + " cannot run on the q8_0 Metal kernel"@)
    } else if refusal is Some {
        Err(refusal->0)
    } else if request.upload is None {
        Err(tensor.name@ + " has not been uploaded to Metal"@)
    } else if !request.upload->0.q8_values {
        Err(tensor.name@ + " is missing q8 Metal value buffer"@)
    } else {
        Ok(
            ProjectionStep {
                kernel: Kernel::Q8Matvec,
                bias_slot: if request.bias_len is Some {
                    Some(0)
                } else {
                    None
                },
                output_slot: None,
                groups: line(tensor.out_dim as u64),
                threads: line(128),
                output_len: tensor.out_dim,
                output_bytes: (4 * tensor.out_dim) as u64,
            },
        )
    }
}

impl View for ProjectionStep {
    type V = ProjectionStep;

    open spec fn view(&self) -> ProjectionStep {
        *self
    }
}

pub fn matvec_q8(request: &ProjectionRequest, input_len: usize) -> (result: Result<
    ProjectionStep,
    TinyAgentError,
>)
    requires
        4 * request.tensor.out_dim <= usize::MAX,
    ensures
        config_outcome(result, q8_step(*request, input_len)),
{
    let tensor = request.tensor;
    if tensor.encoding != QuantEncoding::GgufQ8_0 {
        return Err(
            TinyAgentError::Configuration(
                cat2(tensor.name.as_str(), " cannot run on the q8_0 Metal kernel"),
            ),
        );
    }
    if let Err(error) = tensor.validate_matvec_input(input_len, request.bias_len) {
        return Err(error);
    }
    match request.upload {
        None => return Err(
            TinyAgentError::Configuration(
                cat2(tensor.name.as_str(), " has not been uploaded to Metal"),
            ),
        ),
        Some(upload) => {
            if !upload.q8_values {
                return Err(
                    TinyAgentError::Configuration(
                        cat2(tensor.name.as_str(), " is missing q8 Metal value buffer"),
                    ),
                );
            }
        },
    }
    Ok(
        ProjectionStep {
            kernel: Kernel::Q8Matvec,
            bias_slot: match request.bias_len {
                Some(_) => Some(0),
                None => None,
            },
            output_slot: None,
            groups: line_of(tensor.out_dim as u64),
            threads: line_of(128),
            output_len: tensor.out_dim,
            output_bytes: (4 * tensor.out_dim) as u64,
        },
    )
}

/// The bytes of the buffers of a decode step. No buffer is empty.
#[derive(Debug, Clone, Copy, PartialEq, Eq, Structural)]
pub struct DecodeBytes {
    /// Each buffer of the width of the hidden state.
    pub hidden: u64,
    /// Each buffer of the width of a key.
    pub kv: u64,
    /// Each buffer of the width of the feed-forward part.
    pub intermediate: u64,
    pub logits: u64,
    pub argmax_index: u64,
    /// Each of the stores of past keys and values.
    pub cache: u64,
}

pub open spec fn bytes_or_one(floats: int) -> u64 {
    if floats == 0 {
        1
    } else {
        (4 * floats) as u64
    }
}

fn shared_bytes(floats: usize) -> (bytes: u64)
    requires
        4 * floats <= usize::MAX,
    ensures
        bytes == bytes_or_one(floats as int),
{
    if floats == 0 {
        1
    } else {
        (4 * floats) as u64
    }
}

/// The sizes can be counted.
pub open spec fn decode_sizes_fit(config: QwenRuntimeConfig, max_seq: usize) -> bool {
    &&& 4 * config.hidden_size <= usize::MAX
    &&& 4 * config.intermediate_size <= usize::MAX
    &&& 4 * config.vocab_size <= usize::MAX
    &&& 4 * kv_dim(config) <= usize::MAX
    &&& 4 * (max_seq * kv_dim(config)) <= usize::MAX
}

pub fn decode_bytes(config: &QwenRuntimeConfig, max_seq: usize) -> (bytes: DecodeBytes)
    requires
        decode_sizes_fit(*config, max_seq),
    ensures
        bytes.hidden == bytes_or_one(config.hidden_size as int),
        bytes.kv == bytes_or_one(kv_dim(*config) as int),
        bytes.intermediate == bytes_or_one(config.intermediate_size as int),
        bytes.logits == bytes_or_one(config.vocab_size as int),
        bytes.argmax_index == 4,
        bytes.cache == bytes_or_one(max_seq * kv_dim(*config)),
{
    let kv: usize = config.num_key_value_heads * config.head_dim;
    proof {
        assert(0 <= max_seq * kv) by (nonlinear_arith)
            requires
                0 <= max_seq,
                0 <= kv,
        ;
    }
    DecodeBytes {
        hidden: shared_bytes(config.hidden_size),
        kv: shared_bytes(kv),
        intermediate: shared_bytes(config.intermediate_size),
        logits: shared_bytes(config.vocab_size),
        argmax_index: 4,
        cache: shared_bytes(max_seq * kv),
    }
}

/// The first token that the embedding does not know.
pub open spec fn prefill_refusal(model: ModelImage, token_ids: Seq<u32>) -> Option<Seq<char>>
    decreases token_ids.len(),
{
    let embedding = model.embed_tokens;
    if token_ids.len() == 0 {
        None
    } else {
        let before = prefill_refusal(model, token_ids.drop_last());
        let row = token_ids.last() as usize;
        if before is Some {
            before
        } else if row >= embedding.out_dim {
            Some(
                embedding.name + " row "@ + decimal(row as nat) + " out of range "@ + decimal(
                    embedding.out_dim as nat,
                ),
            )
        } else {
            len_refusal(
                "embedding"@,
                embedding.in_dim as nat,
                model.config.hidden_size as nat,
            )
        }
    }
}

proof fn lemma_prefill_refusal_stays(model: ModelImage, token_ids: Seq<u32>, prefix: nat)
    requires
        prefix <= token_ids.len(),
        prefill_refusal(model, token_ids.take(prefix as int)) is Some,
    ensures
        prefill_refusal(model, token_ids) == prefill_refusal(model, token_ids.take(prefix as int)),
    decreases token_ids.len(),
{
    if prefix == token_ids.len() {
        assert(token_ids.take(prefix as int) =~= token_ids);
    } else {
        assert(token_ids.drop_last().take(prefix as int) =~= token_ids.take(prefix as int));
        lemma_prefill_refusal_stays(model, token_ids.drop_last(), prefix);
    }
}

/// A step of a layer that runs on several rows. The rows are named like the
/// buffers of one row.
#[derive(Debug, Clone, Copy, PartialEq, Eq, Structural)]
pub enum RowStep {
    /// Every row is normalised.
    Normalize { input: BufferName, weight: LayerBuffer, output: BufferName },
    /// Queries, keys and values are projected, each with its bias.
    ProjectQkv { input: BufferName },
    /// The two halves of the feed-forward part are projected.
    ProjectGateUp { input: BufferName },
    Project { projection: Projection, input: BufferName, output: BufferName },
    /// The heads of every row are turned, the first row as stands at `start`.
    Rotate { rows: BufferName, heads: usize, start: usize },
    /// Every row's key and value go to the cache, the first at `start`.
    Remember { start: usize },
    /// Every row's query reads the cache up to its own position.
    Attend { start: usize },
    Add { left: BufferName, right: BufferName, output: BufferName },
    Gate { gate: BufferName, up: BufferName, output: BufferName },
}

impl RowStep {
    /// The rows that are read.
    pub open spec fn reads(self) -> Seq<BufferName> {
        match self {
            RowStep::Normalize { input, .. } => seq![input],
            RowStep::ProjectQkv { input } => seq![input],
            RowStep::ProjectGateUp { input } => seq![input],
            RowStep::Project { input, .. } => seq![input],
            RowStep::Rotate { rows, .. } => seq![rows],
            RowStep::Remember { .. } => seq![BufferName::K, BufferName::V],
            RowStep::Attend { .. } => seq![BufferName::Q],
            RowStep::Add { left, right, .. } => seq![left, right],
            RowStep::Gate { gate, up, .. } => seq![gate, up],
        }
    }

    /// The rows that are written.
    pub open spec fn writes(self) -> Seq<BufferName> {
        match self {
            RowStep::Normalize { output, .. } => seq![output],
            RowStep::ProjectQkv { .. } => seq![BufferName::Q, BufferName::K, BufferName::V],
            RowStep::ProjectGateUp { .. } => seq![BufferName::Gate, BufferName::Up],
            RowStep::Project { output, .. } => seq![output],
            RowStep::Rotate { rows, .. } => seq![rows],
            RowStep::Remember { .. } => Seq::empty(),
            RowStep::Attend { .. } => seq![BufferName::Attn],
            RowStep::Add { output, .. } => seq![output],
            RowStep::Gate { output, .. } => seq![output],
        }
    }

    /// The kernels that do the same for one row.
    pub open spec fn kernels(self) -> Seq<Kernel> {
        match self {
            RowStep::Normalize { .. } => seq![Kernel::Rmsnorm],
            RowStep::ProjectQkv { .. } => seq![
                Kernel::Q4Matvec,
                Kernel::Q4Matvec,
                Kernel::Q4Matvec,
            ],
            RowStep::ProjectGateUp { .. } => seq![Kernel::Q4Matvec, Kernel::Q4Matvec],
            RowStep::Project { .. } => seq![Kernel::Q4Matvec],
            RowStep::Rotate { .. } => seq![Kernel::Rope],
            RowStep::Remember { .. } => seq![Kernel::KvWrite],
            RowStep::Attend { .. } => seq![Kernel::Attention],
            RowStep::Add { .. } => seq![Kernel::Add],
            RowStep::Gate { .. } => seq![Kernel::Swiglu],
        }
    }
}

/// The steps of a layer on several rows: attention over the cache, then the
/// feed-forward part, each added to what came in.
pub open spec fn batched_layer_steps(config: QwenRuntimeConfig, start: usize) -> Seq<RowStep> {
    seq![
        RowStep::Normalize {
            input: BufferName::Hidden,
            weight: LayerBuffer::InputNormWeight,
            output: BufferName::AttnInput,
        },
        RowStep::ProjectQkv { input: BufferName::AttnInput },
        RowStep::Rotate { rows: BufferName::Q, heads: config.num_attention_heads, start },
        RowStep::Rotate { rows: BufferName::K, heads: config.num_key_value_heads, start },
        RowStep::Remember { start },
        RowStep::Attend { start },
        RowStep::Project {
            projection: Projection::O,
            input: BufferName::Attn,
            output: BufferName::AttnOut,
        },
        RowStep::Add {
            left: BufferName::Hidden,
            right: BufferName::AttnOut,
            output: BufferName::Residual,
        },
        RowStep::Normalize {
            input: BufferName::Residual,
            weight: LayerBuffer::PostNormWeight,
            output: BufferName::MlpInput,
        },
        RowStep::ProjectGateUp { input: BufferName::MlpInput },
        RowStep::Gate {
            gate: BufferName::Gate,
            up: BufferName::Up,
            output: BufferName::Swiglu,
        },
        RowStep::Project {
            projection: Projection::Down,
            input: BufferName::Swiglu,
            output: BufferName::MlpOut,
        },
        RowStep::Add {
            left: BufferName::Residual,
            right: BufferName::MlpOut,
            output: BufferName::Hidden,
        },
    ]
}

/// The kernels of steps, one after the other.
pub open spec fn kernels_of(steps: Seq<RowStep>) -> Seq<Kernel>
    decreases steps.len(),
{
    if steps.len() == 0 {
        Seq::empty()
    } else {
        kernels_of(steps.drop_last()) + steps.last().kernels()
    }
}

/// Every step on several rows reads what came in or what an earlier step
/// wrote, and the last one leaves its sum where the next layer reads.
pub proof fn rows_read_what_was_written(config: QwenRuntimeConfig, start: usize)
    ensures
        ({
            let steps = batched_layer_steps(config, start);
            &&& steps.first().reads() == seq![BufferName::Hidden]
            &&& steps.last().writes() == seq![BufferName::Hidden]
            &&& forall|i: int, name: BufferName|
                0 <= i < steps.len() && #[trigger] steps[i].reads().contains(name) ==> name
                    == BufferName::Hidden || exists|j: int|
                    0 <= j < i && #[trigger] steps[j].writes().contains(name)
        }),
{
    let steps = batched_layer_steps(config, start);
    assert forall|i: int, name: BufferName|
        0 <= i < steps.len() && #[trigger] steps[i].reads().contains(name) implies name
        == BufferName::Hidden || exists|j: int|
        0 <= j < i && #[trigger] steps[j].writes().contains(name) by {
        assert(steps[0].writes()[0] == BufferName::AttnInput);
        assert(steps[1].writes()[0] == BufferName::Q);
        assert(steps[1].writes()[1] == BufferName::K);
        assert(steps[1].writes()[2] == BufferName::V);
        assert(steps[5].writes()[0] == BufferName::Attn);
        assert(steps[6].writes()[0] == BufferName::AttnOut);
        assert(steps[7].writes()[0] == BufferName::Residual);
        assert(steps[8].writes()[0] == BufferName::MlpInput);
        assert(steps[9].writes()[0] == BufferName::Gate);
        assert(steps[9].writes()[1] == BufferName::Up);
        assert(steps[10].writes()[0] == BufferName::Swiglu);
        assert(steps[11].writes()[0] == BufferName::MlpOut);
        if i == 0 {
            assert(name == BufferName::Hidden);
        } else if i == 1 {
            assert(steps[0].writes().contains(name));
        } else if i <= 5 {
            assert(steps[1].writes().contains(name));
        } else if i == 6 {
            assert(steps[5].writes().contains(name));
        } else if i == 7 {
            assert(name == BufferName::Hidden || steps[6].writes().contains(name));
        } else if i == 8 {
            assert(steps[7].writes().contains(name));
        } else if i == 9 {
            assert(steps[8].writes().contains(name));
        } else if i == 10 {
            assert(steps[9].writes().contains(name));
        } else if i == 11 {
            assert(steps[10].writes().contains(name));
        } else {
            assert(steps[7].writes().contains(name) || steps[11].writes().contains(name));
        }
    }
}

/// A layer on several rows takes the steps, in the order, of a layer on one.
pub proof fn rows_take_the_steps_of_one(
    model: ModelImage,
    index: int,
    position: usize,
    start: usize,
)
    ensures
        kernels_of(batched_layer_steps(model.config, start)) == Seq::new(
            layer_calls(model, index, position).len(),
            |i: int| layer_calls(model, index, position)[i].kernel,
        ),
{
    let steps = batched_layer_steps(model.config, start);
    let calls = layer_calls(model, index, position);
    reveal_with_fuel(kernels_of, 14);
    let kernels = kernels_of(steps);
    assert(steps.drop_last() =~= steps.take(12));
    assert(steps.take(12).drop_last() =~= steps.take(11));
    assert(steps.take(11).drop_last() =~= steps.take(10));
    assert(steps.take(10).drop_last() =~= steps.take(9));
    assert(steps.take(9).drop_last() =~= steps.take(8));
    assert(steps.take(8).drop_last() =~= steps.take(7));
    assert(steps.take(7).drop_last() =~= steps.take(6));
    assert(steps.take(6).drop_last() =~= steps.take(5));
    assert(steps.take(5).drop_last() =~= steps.take(4));
    assert(steps.take(4).drop_last() =~= steps.take(3));
    assert(steps.take(3).drop_last() =~= steps.take(2));
    assert(steps.take(2).drop_last() =~= steps.take(1));
    assert(steps.take(1).drop_last() =~= Seq::<RowStep>::empty());
    assert(kernels =~= Seq::new(calls.len(), |i: int| calls[i].kernel));
}

/// The key-value head that a query head reads.
pub open spec fn kv_head_of(config: QwenRuntimeConfig, head: int) -> int {
    head / (config.num_attention_heads as int / config.num_key_value_heads as int)
}

/// Where the query heads are shared out evenly, every one of them reads a
/// key-value head that there is.
pub proof fn kv_head_exists(config: QwenRuntimeConfig, head: int)
    requires
        config.num_key_value_heads > 0,
        config.num_attention_heads as int % config.num_key_value_heads as int == 0,
        0 <= head < config.num_attention_heads,
    ensures
        0 <= kv_head_of(config, head) < config.num_key_value_heads,
{
    let heads = config.num_attention_heads as int;
    let kv_heads = config.num_key_value_heads as int;
    let shared = heads / kv_heads;
    assert(heads == shared * kv_heads) by (nonlinear_arith)
        requires
            kv_heads > 0,
            heads % kv_heads == 0,
            shared == heads / kv_heads,
    ;
    assert(shared > 0) by (nonlinear_arith)
        requires
            heads == shared * kv_heads,
            heads > 0,
            kv_heads > 0,
    ;
    let chosen = head / shared;
    assert(0 <= chosen < kv_heads) by (nonlinear_arith)
        requires
            chosen == head / shared,
            shared > 0,
            0 <= head < shared * kv_heads,
    ;
}

pub fn kv_head(config: &QwenRuntimeConfig, head: usize) -> (chosen: usize)
    requires
        0 < config.num_key_value_heads <= config.num_attention_heads,
    ensures
        chosen == kv_head_of(*config, head as int),
{
    let shared: usize = config.num_attention_heads / config.num_key_value_heads;
    proof {
        assert(shared > 0) by (nonlinear_arith)
            requires
                0 < config.num_key_value_heads <= config.num_attention_heads,
                shared == config.num_attention_heads as int / config.num_key_value_heads as int,
        ;
    }
    head / shared
}

impl QwenRuntimeModel {
    /// The checks that come before several tokens are run at once.
    pub fn prefill_hidden(&self, token_ids: &Vec<u32>) -> (result: Result<(), TinyAgentError>)
        ensures
            config_outcome(
                result,
                if token_ids@.len() == 0 {
                    Err("prefill requires at least one token"@)
                } else {
                    checked(prefill_refusal(self@, token_ids@))
                },
            ),
    {
        if token_ids.len() == 0 {
            return Err(config_error("prefill requires at least one token"));
        }
        let mut index: usize = 0;
        assert(token_ids@.take(0) =~= Seq::<u32>::empty());
        while index < token_ids.len()
            invariant
                0 < token_ids@.len(),
                index <= token_ids@.len(),
                prefill_refusal(self@, token_ids@.take(index as int)) is None,
            decreases token_ids@.len() - index,
        {
            let ghost next = token_ids@.take(index + 1);
            assert(next.drop_last() =~= token_ids@.take(index as int));
            assert(next.last() == token_ids@[index as int]);
            if let Err(error) = self.embed_tokens.check_row(token_ids[index] as usize) {
                proof {
                    lemma_prefill_refusal_stays(self@, token_ids@, (index + 1) as nat);
                }
                return Err(error);
            }
            if let Err(error) = ensure_len(
                "embedding",
                self.embed_tokens.in_dim,
                self.config.hidden_size,
            ) {
                proof {
                    lemma_prefill_refusal_stays(self@, token_ids@, (index + 1) as nat);
                }
                return Err(error);
            }
            index = index + 1;
        }
        assert(token_ids@.take(index as int) =~= token_ids@);
        Ok(())
    }

    /// Where the last of some rows of the hidden state stands.
    pub fn last_row(&self, batch: usize) -> (span: RowSpan)
        requires
            batch > 0,
            batch * self.config.hidden_size <= usize::MAX,
        ensures
            span == row_of(batch - 1, self.config.hidden_size as int),
            span.start == (batch - 1) * self.config.hidden_size,
            span.end == batch * self.config.hidden_size,
    {
        proof {
            let width = self.config.hidden_size as int;
            assert((batch - 1) * width + width == batch * width) by (nonlinear_arith);
        }
        row_span(batch - 1, self.config.hidden_size)
    }

    /// The steps of a layer on several rows, the first of which stands at
    /// `start`.
    pub fn forward_layer_batched(&self, hidden_len: usize, batch: usize, start: usize) -> (result:
        Result<Vec<RowStep>, TinyAgentError>)
        requires
            batch * self.config.hidden_size <= usize::MAX,
        ensures
            config_outcome(
                result,
                if batch == 0 || hidden_len != batch * self.config.hidden_size {
                    Err(
                        "batched layer input length "@ + decimal(hidden_len as nat)
                            + " does not match batch "@ + decimal(batch as nat)
                            + " * hidden_size "@ + decimal(self.config.hidden_size as nat),
                    )
                } else {
                    Ok(batched_layer_steps(self.config, start))
                },
            ),
    {
        if batch == 0 || hidden_len != batch * self.config.hidden_size {
            return Err(
                TinyAgentError::Configuration(
                    cat6(
                        "batched layer input length ",
                        decimal_usize(hidden_len).as_str(),
                        " does not match batch ",
                        decimal_usize(batch).as_str(),
                        " * hidden_size ",
                        decimal_usize(self.config.hidden_size).as_str(),
                    ),
                ),
            );
        }
        let steps: Vec<RowStep> = vec![
            RowStep::Normalize {
                input: BufferName::Hidden,
                weight: LayerBuffer::InputNormWeight,
                output: BufferName::AttnInput,
            },
            RowStep::ProjectQkv { input: BufferName::AttnInput },
            RowStep::Rotate { rows: BufferName::Q, heads: self.config.num_attention_heads, start },
            RowStep::Rotate { rows: BufferName::K, heads: self.config.num_key_value_heads, start },
            RowStep::Remember { start },
            RowStep::Attend { start },
            RowStep::Project {
                projection: Projection::O,
                input: BufferName::Attn,
                output: BufferName::AttnOut,
            },
            RowStep::Add {
                left: BufferName::Hidden,
                right: BufferName::AttnOut,
                output: BufferName::Residual,
            },
            RowStep::Normalize {
                input: BufferName::Residual,
                weight: LayerBuffer::PostNormWeight,
                output: BufferName::MlpInput,
            },
            RowStep::ProjectGateUp { input: BufferName::MlpInput },
            RowStep::Gate {
                gate: BufferName::Gate,
                up: BufferName::Up,
                output: BufferName::Swiglu,
            },
            RowStep::Project {
                projection: Projection::Down,
                input: BufferName::Swiglu,
                output: BufferName::MlpOut,
            },
            RowStep::Add {
                left: BufferName::Residual,
                right: BufferName::MlpOut,
                output: BufferName::Hidden,
            },
        ];
        assert(steps@ =~= batched_layer_steps(self.config, start));
        Ok(steps)
    }

    /// A cache of zeros for every layer.
    pub fn allocate_kv_cache(&self, max_seq: usize) -> (caches: Vec<KvCache>)
        requires
            max_seq * self.config.num_key_value_heads <= usize::MAX,
            max_seq * self.config.num_key_value_heads * self.config.head_dim <= usize::MAX,
        ensures
            caches@.len() == self.layers@.len(),
            forall|i: int|
                0 <= i < caches@.len() ==> {
                    let cache = (#[trigger] caches@[i])@;
                    &&& cache.wf()
                    &&& cache.max_seq == max_seq
                    &&& cache.kv_heads == self.config.num_key_value_heads
                    &&& cache.head_dim == self.config.head_dim
                    &&& forall|j: int| 0 <= j < cache.keys.len() ==> #[trigger] cache.keys[j] == 0
                    &&& forall|j: int|
                        0 <= j < cache.values.len() ==> #[trigger] cache.values[j] == 0
                },
    {
        let mut caches: Vec<KvCache> = Vec::new();
        let mut index: usize = 0;
        while index < self.layers.len()
            invariant
                index <= self.layers@.len(),
                caches@.len() == index,
                max_seq * self.config.num_key_value_heads <= usize::MAX,
                max_seq * self.config.num_key_value_heads * self.config.head_dim <= usize::MAX,
                forall|i: int|
                    0 <= i < caches@.len() ==> {
                        let cache = (#[trigger] caches@[i])@;
                        &&& cache.wf()
                        &&& cache.max_seq == max_seq
                        &&& cache.kv_heads == self.config.num_key_value_heads
                        &&& cache.head_dim == self.config.head_dim
                        &&& forall|j: int|
                            0 <= j < cache.keys.len() ==> #[trigger] cache.keys[j] == 0
                        &&& forall|j: int|
                            0 <= j < cache.values.len() ==> #[trigger] cache.values[j] == 0
                    },
            decreases self.layers@.len() - index,
        {
            caches.push(
                KvCache::new(
                    max_seq,
                    self.config.num_key_value_heads,
                    self.config.head_dim,
                ),
            );
            index = index + 1;
        }
        caches
    }

    /// Whether a token is decoded on the GPU.
    pub fn forward_hidden_decode(&self, has_buffers: bool) -> (on_gpu: bool)
        ensures
            on_gpu == (self.projection_backend == QwenProjectionBackend::Metal && has_buffers),
    {
        self.projection_backend == QwenProjectionBackend::Metal && has_buffers
    }

    /// Whether the next token is chosen on the GPU.
    pub fn project_next_token(&self, has_buffers: bool) -> (on_gpu: bool)
        ensures
            on_gpu == (self.projection_backend == QwenProjectionBackend::Metal && has_buffers
                && self.lm_head is Some && self.lm_head->0.encoding == QuantEncoding::GgufQ8_0),
    {
        match &self.lm_head {
            Some(lm_head) => self.projection_backend == QwenProjectionBackend::Metal && has_buffers
                && lm_head.encoding == QuantEncoding::GgufQ8_0,
            None => false,
        }
    }

    /// The matrix that gives the logits: the head, else the embedding.
    pub fn project_logits(&self) -> (tensor: &QuantTensor)
        ensures
            *tensor == match self.lm_head {
                Some(lm_head) => lm_head,
                None => self.embed_tokens,
            },
    {
        match &self.lm_head {
            Some(lm_head) => lm_head,
            None => &self.embed_tokens,
        }
    }
}

/// Each key-value head is read by a run of query heads, all runs equally long.
pub proof fn heads_are_shared_in_runs(config: QwenRuntimeConfig, head: int, kv_head: int)
    requires
        0 < config.num_key_value_heads <= config.num_attention_heads,
        0 <= head,
    ensures
        ({
            let run = config.num_attention_heads as int / config.num_key_value_heads as int;
            kv_head_of(config, head) == kv_head <==> kv_head * run <= head < kv_head * run + run
        }),
{
    let heads = config.num_attention_heads as int;
    let kv_heads = config.num_key_value_heads as int;
    let run = heads / kv_heads;
    assert(run > 0) by (nonlinear_arith)
        requires
            0 < kv_heads <= heads,
            run == heads / kv_heads,
    ;
    let chosen = head / run;
    assert(chosen * run <= head < chosen * run + run) by (nonlinear_arith)
        requires
            run > 0,
            0 <= head,
            chosen == head / run,
    ;
    if kv_head < chosen {
        assert(kv_head * run + run <= chosen * run) by (nonlinear_arith)
            requires
                kv_head < chosen,
                run > 0,
        ;
    } else if kv_head > chosen {
        assert(chosen * run + run <= kv_head * run) by (nonlinear_arith)
            requires
                chosen < kv_head,
                run > 0,
        ;
    }
}

/// Tokens are prefilled just where each has a row in the embedding, as wide as
/// the hidden state.
pub proof fn prefill_needs_rows(model: ModelImage, token_ids: Seq<u32>)
    ensures
        prefill_refusal(model, token_ids) is None <==> {
            &&& forall|i: int|
                0 <= i < token_ids.len() ==> #[trigger] token_ids[i] < model.embed_tokens.out_dim
            &&& token_ids.len() > 0 ==> model.embed_tokens.in_dim == model.config.hidden_size
        },
    decreases token_ids.len(),
{
    if token_ids.len() > 0 {
        let fewer = token_ids.drop_last();
        prefill_needs_rows(model, fewer);
        assert(token_ids.last() == token_ids[token_ids.len() - 1]);
        assert forall|i: int| 0 <= i < fewer.len() implies fewer[i] == #[trigger] token_ids[i] by {}
        if (forall|i: int|
            0 <= i < fewer.len() ==> #[trigger] fewer[i] < model.embed_tokens.out_dim) && token_ids.last()
            < model.embed_tokens.out_dim {
            assert forall|i: int| 0 <= i < token_ids.len() implies #[trigger] token_ids[i]
                < model.embed_tokens.out_dim by {
                if i < fewer.len() {
                    assert(fewer[i] == token_ids[i]);
                }
            }
        }
    }
}

/// A projection runs on the GPU just where it is asked for there, and the GPU has
/// to be there. A matrix of bytes then takes the kernel for bytes, one of
/// four-bit numbers the other.
pub proof fn projections_run_where_they_are_asked_for(
    backend: QwenProjectionBackend,
    has_runtime: bool,
    encoding: QuantEncoding,
)
    ensures
        ({
            let route = route_of(backend, has_runtime, encoding);
            &&& route is Err <==> backend == QwenProjectionBackend::Metal && !has_runtime
            &&& route == Ok::<_, Seq<char>>(ProjectionRoute::Cpu) <==> backend
                == QwenProjectionBackend::Cpu
            &&& route == Ok::<_, Seq<char>>(ProjectionRoute::MetalQ8) <==> backend
                == QwenProjectionBackend::Metal && has_runtime && encoding
                == QuantEncoding::GgufQ8_0
            &&& route == Ok::<_, Seq<char>>(ProjectionRoute::MetalQ4) <==> backend
                == QwenProjectionBackend::Metal && has_runtime && encoding
                == QuantEncoding::AffineQ4
        }),
{
}

} // verus!
