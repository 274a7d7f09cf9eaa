//! A GGUF file: reading it, and the tensors in it.

use crate::error::{config_error, config_outcome, Fault, TinyAgentError};
use crate::gguf::{
    aligned, body_at, dims_at, entry_at, gguf_image, gguf_magic, metadata_at, tensor_at,
    tensors_at, GgufImage, GgufReader, GgufTensorInfo, GgufValue, TensorEntry,
    GGML_Q4_0_BLOCK_BYTES, GGML_Q4_0_BLOCK_SIZE, GGML_Q8_0_BLOCK_BYTES, GGML_Q8_0_BLOCK_SIZE,
    GGML_TYPE_F32, GGML_TYPE_Q4_0, GGML_TYPE_Q8_0,
};
use crate::name_map::NameMap;
use crate::text::{
    cat2, cat3, cat6, decimal, decimal_i32, decimal_u64, decimal_usize, signed_decimal,
};
use vstd::arithmetic::power2::is_pow2;
use vstd::prelude::*;

verus! {

/// A file with its directory. The tensors' data begins at `data_start`.
pub struct GgufFile {
    bytes: Vec<u8>,
    data_start: usize,
    metadata: NameMap<GgufValue>,
    tensors: NameMap<GgufTensorInfo>,
}

impl View for GgufFile {
    type V = GgufImage;

    closed spec fn view(&self) -> GgufImage {
        GgufImage {
            bytes: self.bytes@,
            data_start: self.data_start as nat,
            metadata: self.metadata@,
            tensors: self.tensors@,
        }
    }
}

/// Where reading some entries fails, reading more of them fails alike.
proof fn lemma_metadata_fails(bytes: Seq<u8>, offset: nat, fewer: nat, more: nat)
    requires
        fewer <= more,
        metadata_at(bytes, offset, fewer).0 is Err,
    ensures
        metadata_at(bytes, offset, more) == metadata_at(bytes, offset, fewer),
    decreases more,
{
    if fewer < more {
        lemma_metadata_fails(bytes, offset, fewer, (more - 1) as nat);
    }
}

proof fn lemma_dims_fail(bytes: Seq<u8>, offset: nat, fewer: nat, more: nat)
    requires
        fewer <= more,
        dims_at(bytes, offset, fewer).0 is Err,
    ensures
        dims_at(bytes, offset, more) == dims_at(bytes, offset, fewer),
    decreases more,
{
    if fewer < more {
        lemma_dims_fail(bytes, offset, fewer, (more - 1) as nat);
    }
}

proof fn lemma_tensors_fail(bytes: Seq<u8>, offset: nat, fewer: nat, more: nat)
    requires
        fewer <= more,
        tensors_at(bytes, offset, fewer).0 is Err,
    ensures
        tensors_at(bytes, offset, more) == tensors_at(bytes, offset, fewer),
    decreases more,
{
    if fewer < more {
        lemma_tensors_fail(bytes, offset, fewer, (more - 1) as nat);
    }
}

fn read_entry(reader: &mut GgufReader) -> (result: Result<(String, GgufValue), TinyAgentError>)
    requires
        old(reader).wf(),
    ensures
        final(reader).wf(),
        final(reader).bytes@ == old(reader).bytes@,
        config_outcome(result, entry_at(old(reader).bytes@, old(reader).offset as nat).0),
        final(reader).offset == entry_at(old(reader).bytes@, old(reader).offset as nat).1,
{
    let key = match reader.read_string() {
        Ok(key) => key,
        Err(error) => return Err(error),
    };
    let value_type: i32 = match reader.read_i32() {
        Ok(value_type) => value_type,
        Err(error) => return Err(error),
    };
    match reader.read_metadata_value(value_type) {
        Ok(value) => Ok((key, value)),
        Err(error) => Err(error),
    }
}

fn read_metadata(reader: &mut GgufReader, count: usize) -> (result: Result<
    NameMap<GgufValue>,
    TinyAgentError,
>)
    requires
        old(reader).wf(),
    ensures
        final(reader).wf(),
        final(reader).bytes@ == old(reader).bytes@,
        result is Ok ==> result->Ok_0.wf(),
        config_outcome(
            result,
            metadata_at(old(reader).bytes@, old(reader).offset as nat, count as nat).0,
        ),
        final(reader).offset == metadata_at(
            old(reader).bytes@,
            old(reader).offset as nat,
            count as nat,
        ).1,
{
    let ghost start = reader.offset as nat;
    let mut metadata: NameMap<GgufValue> = NameMap::new();
    let mut done: usize = 0;
    while done < count
        invariant
            reader.wf(),
            reader.bytes@ == old(reader).bytes@,
            start == old(reader).offset,
            done <= count,
            metadata.wf(),
            metadata_at(reader.bytes@, start, done as nat) == (
                Ok::<Map<Seq<char>, GgufValue>, Seq<char>>(metadata@),
                reader.offset as nat,
            ),
        decreases count - done,
    {
        match read_entry(reader) {
            Ok(entry) => metadata.insert(entry.0, entry.1),
            Err(error) => {
                proof {
                    lemma_metadata_fails(reader.bytes@, start, (done + 1) as nat, count as nat);
                }
                return Err(error);
            },
        }
        done = done + 1;
    }
    Ok(metadata)
}

fn read_dims(reader: &mut GgufReader, count: usize) -> (result: Result<Vec<usize>, TinyAgentError>)
    requires
        old(reader).wf(),
    ensures
        final(reader).wf(),
        final(reader).bytes@ == old(reader).bytes@,
        config_outcome(
            result,
            dims_at(old(reader).bytes@, old(reader).offset as nat, count as nat).0,
        ),
        final(reader).offset == dims_at(
            old(reader).bytes@,
            old(reader).offset as nat,
            count as nat,
        ).1,
{
    let ghost start = reader.offset as nat;
    let mut dims: Vec<usize> = Vec::new();
    let mut done: usize = 0;
    while done < count
        invariant
            reader.wf(),
            reader.bytes@ == old(reader).bytes@,
            start == old(reader).offset,
            done <= count,
            dims_at(reader.bytes@, start, done as nat) == (
                Ok::<Seq<usize>, Seq<char>>(dims@),
                reader.offset as nat,
            ),
        decreases count - done,
    {
        match reader.read_u64() {
            Ok(dim) => dims.push(dim as usize),
            Err(error) => {
                proof {
                    lemma_dims_fail(reader.bytes@, start, (done + 1) as nat, count as nat);
                }
                return Err(error);
            },
        }
        done = done + 1;
    }
    Ok(dims)
}

fn read_tensor(reader: &mut GgufReader) -> (result: Result<
    (String, GgufTensorInfo),
    TinyAgentError,
>)
    requires
        old(reader).wf(),
    ensures
        final(reader).wf(),
        final(reader).bytes@ == old(reader).bytes@,
        config_outcome(result, tensor_at(old(reader).bytes@, old(reader).offset as nat).0),
        final(reader).offset == tensor_at(old(reader).bytes@, old(reader).offset as nat).1,
{
    let name = match reader.read_string() {
        Ok(name) => name,
        Err(error) => return Err(error),
    };
    let rank: usize = match reader.read_u32() {
        Ok(rank) => rank as usize,
        Err(error) => return Err(error),
    };
    let dims = match read_dims(reader, rank) {
        Ok(dims) => dims,
        Err(error) => return Err(error),
    };
    let ggml_type: i32 = match reader.read_i32() {
        Ok(ggml_type) => ggml_type,
        Err(error) => return Err(error),
    };
    match reader.read_u64() {
        Ok(offset) => Ok((name, GgufTensorInfo { ggml_type, dims, offset: offset as usize })),
        Err(error) => Err(error),
    }
}

fn read_tensors(reader: &mut GgufReader, count: usize) -> (result: Result<
    NameMap<GgufTensorInfo>,
    TinyAgentError,
>)
    requires
        old(reader).wf(),
    ensures
        final(reader).wf(),
        final(reader).bytes@ == old(reader).bytes@,
        result is Ok ==> result->Ok_0.wf(),
        config_outcome(
            result,
            tensors_at(old(reader).bytes@, old(reader).offset as nat, count as nat).0,
        ),
        final(reader).offset == tensors_at(
            old(reader).bytes@,
            old(reader).offset as nat,
            count as nat,
        ).1,
{
    let ghost start = reader.offset as nat;
    let mut tensors: NameMap<GgufTensorInfo> = NameMap::new();
    let mut done: usize = 0;
    while done < count
        invariant
            reader.wf(),
            reader.bytes@ == old(reader).bytes@,
            start == old(reader).offset,
            done <= count,
            tensors.wf(),
            tensors_at(reader.bytes@, start, done as nat) == (
                Ok::<Map<Seq<char>, TensorEntry>, Seq<char>>(tensors@),
                reader.offset as nat,
            ),
        decreases count - done,
    {
        match read_tensor(reader) {
            Ok(entry) => tensors.insert(entry.0, entry.1),
            Err(error) => {
                proof {
                    lemma_tensors_fail(reader.bytes@, start, (done + 1) as nat, count as nat);
                }
                return Err(error);
            },
        }
        done = done + 1;
    }
    Ok(tensors)
}

fn power_of_two(value: usize) -> (yes: bool)
    ensures
        yes == is_pow2(value as int),
    decreases value,
{
    proof {
        reveal_with_fuel(is_pow2, 2);
    }
    if value == 0 {
        false
    } else if value == 1 {
        true
    } else {
        value % 2 == 0 && power_of_two(value / 2)
    }
}

/// The least multiple of `alignment` that is no less than `value`.
pub fn align_up(value: usize, alignment: usize) -> (result: Result<usize, TinyAgentError>)
    requires
        is_pow2(alignment as int),
    ensures
        config_outcome(
            result,
            if value + alignment - 1 > usize::MAX {
                Err("GGUF alignment overflow"@)
            } else {
                Ok(aligned(value as nat, alignment as nat) as usize)
            },
        ),
        result is Ok ==> aligned(value as nat, alignment as nat) <= usize::MAX,
{
    proof {
        reveal_with_fuel(is_pow2, 1);
    }
    let bound: Option<usize> = value.checked_add(alignment - 1);
    match bound {
        Some(bound) => {
            let rest: usize = bound % alignment;
            assert(bound - rest == bound as int / alignment as int * alignment) by (nonlinear_arith)
                requires
                    alignment > 0,
                    rest == bound as int % alignment as int,
            ;
            Ok(bound - rest)
        },
        None => Err(config_error("GGUF alignment overflow")),
    }
}

/// Alignment gives the least multiple that does not lie below the value.
pub proof fn aligned_is_least(value: nat, alignment: nat)
    requires
        alignment > 0,
    ensures
        aligned(value, alignment) % alignment == 0,
        value <= aligned(value, alignment) < value + alignment,
        forall|other: nat|
            value <= other && #[trigger] (other % alignment) == 0 ==> aligned(value, alignment)
                <= other,
{
    let bound = value + alignment - 1;
    let quotient = bound / alignment as int;
    assert(aligned(value, alignment) == quotient * alignment);
    assert(bound - alignment < quotient * alignment <= bound) by (nonlinear_arith)
        requires
            alignment > 0,
            quotient == bound / alignment as int,
    ;
    assert((quotient * alignment) % alignment as int == 0) by (nonlinear_arith)
        requires
            alignment > 0,
    ;
    assert forall|other: nat| value <= other && #[trigger] (other % alignment) == 0 implies aligned(
        value,
        alignment,
    ) <= other by {
        let factor = other / alignment;
        assert(other == factor * alignment) by (nonlinear_arith)
            requires
                alignment > 0,
                other % alignment == 0,
                factor == other / alignment,
        ;
        if factor < quotient {
            assert(factor * alignment + alignment <= quotient * alignment) by (nonlinear_arith)
                requires
                    factor < quotient,
                    alignment > 0,
            ;
        } else {
            assert(quotient * alignment <= factor * alignment) by (nonlinear_arith)
                requires
                    quotient <= factor,
                    alignment > 0,
            ;
        }
    }
}

/// The number of elements, or nothing where a product of leading dimensions
/// does not fit.
pub open spec fn element_count(dims: Seq<usize>) -> Option<nat>
    decreases dims.len(),
{
    if dims.len() == 0 {
        Some(1)
    } else {
        match element_count(dims.drop_last()) {
            Some(count) => if count * dims.last() <= usize::MAX {
                Some(count * dims.last() as nat)
            } else {
                None
            },
            None => None,
        }
    }
}

/// The bytes of a tensor in blocks.
pub open spec fn quantized_nbytes(
    elements: nat,
    block_size: nat,
    block_bytes: nat,
    name: Seq<char>,
) -> Result<usize, Seq<char>> {
    if elements % block_size != 0 {
        Err(
            "GGUF "@ + name + " tensor element count "@ + decimal(elements)
                + " is not divisible by "@ + decimal(block_size),
        )
    } else if elements / block_size * block_bytes > usize::MAX {
        Err("GGUF "@ + name + " tensor byte size overflow"@)
    } else {
        Ok((elements / block_size * block_bytes) as usize)
    }
}

/// The bytes of a tensor.
pub open spec fn tensor_nbytes(info: TensorEntry) -> Result<usize, Seq<char>> {
    match element_count(info.dims) {
        None => Err("GGUF tensor element count overflow"@),
        Some(elements) => if info.ggml_type == GGML_TYPE_F32 {
            if elements * 4 > usize::MAX {
                Err("GGUF F32 tensor byte size overflow"@)
            } else {
                Ok((elements * 4) as usize)
            }
        } else if info.ggml_type == GGML_TYPE_Q4_0 {
            quantized_nbytes(
                elements,
                GGML_Q4_0_BLOCK_SIZE as nat,
                GGML_Q4_0_BLOCK_BYTES as nat,
                "Q4_0"@,
            )
        } else if info.ggml_type == GGML_TYPE_Q8_0 {
            quantized_nbytes(
                elements,
                GGML_Q8_0_BLOCK_SIZE as nat,
                GGML_Q8_0_BLOCK_BYTES as nat,
                "Q8_0"@,
            )
        } else {
            Err("unsupported GGUF tensor type "@ + signed_decimal(info.ggml_type as int))
        },
    }
}

fn count_elements(dims: &Vec<usize>) -> (count: Option<usize>)
    ensures
        match count {
            Some(count) => element_count(dims@) == Some(count as nat),
            None => element_count(dims@) is None,
        },
{
    let mut count: usize = 1;
    let mut index: usize = 0;
    assert(dims@.take(0) =~= Seq::<usize>::empty());
    while index < dims.len()
        invariant
            index <= dims@.len(),
            element_count(dims@.take(index as int)) == Some(count as nat),
        decreases dims@.len() - index,
    {
        let ghost next = dims@.take(index + 1);
        assert(next.drop_last() =~= dims@.take(index as int));
        match count.checked_mul(dims[index]) {
            Some(product) => {
                count = product;
            },
            None => {
                proof {
                    lemma_count_fails(dims@, (index + 1) as nat);
                }
                return None;
            },
        }
        index = index + 1;
    }
    assert(dims@.take(index as int) =~= dims@);
    Some(count)
}

proof fn lemma_count_fails(dims: Seq<usize>, prefix: nat)
    requires
        prefix <= dims.len(),
        element_count(dims.take(prefix as int)) is None,
    ensures
        element_count(dims) is None,
    decreases dims.len(),
{
    if prefix == dims.len() {
        assert(dims.take(prefix as int) =~= dims);
    } else {
        assert(dims.drop_last().take(prefix as int) =~= dims.take(prefix as int));
        lemma_count_fails(dims.drop_last(), prefix);
    }
}

pub fn quantized_tensor_nbytes(
    elements: usize,
    block_size: usize,
    block_bytes: usize,
    name: &str,
) -> (result: Result<usize, TinyAgentError>)
    requires
        block_size > 0,
    ensures
        config_outcome(
            result,
            quantized_nbytes(elements as nat, block_size as nat, block_bytes as nat, name@),
        ),
{
    if elements % block_size != 0 {
        return Err(
            TinyAgentError::Configuration(
                cat6(
                    "GGUF ",
                    name,
                    " tensor element count ",
                    decimal_usize(elements).as_str(),
                    " is not divisible by ",
                    decimal_usize(block_size).as_str(),
                ),
            ),
        );
    }
    match (elements / block_size).checked_mul(block_bytes) {
        Some(bytes) => Ok(bytes),
        None => Err(
            TinyAgentError::Configuration(cat3("GGUF ", name, " tensor byte size overflow")),
        ),
    }
}

pub fn gguf_tensor_nbytes(info: &GgufTensorInfo) -> (result: Result<usize, TinyAgentError>)
    ensures
        config_outcome(result, tensor_nbytes(info@)),
{
    let elements: usize = match count_elements(&info.dims) {
        Some(elements) => elements,
        None => return Err(config_error("GGUF tensor element count overflow")),
    };
    match info.ggml_type {
        GGML_TYPE_F32 => match elements.checked_mul(4) {
            Some(bytes) => Ok(bytes),
            None => Err(config_error("GGUF F32 tensor byte size overflow")),
        },
        GGML_TYPE_Q4_0 => quantized_tensor_nbytes(
            elements,
            GGML_Q4_0_BLOCK_SIZE,
            GGML_Q4_0_BLOCK_BYTES,
            "Q4_0",
        ),
        GGML_TYPE_Q8_0 => quantized_tensor_nbytes(
            elements,
            GGML_Q8_0_BLOCK_SIZE,
            GGML_Q8_0_BLOCK_BYTES,
            "Q8_0",
        ),
        other => Err(
            TinyAgentError::Configuration(
                cat2("unsupported GGUF tensor type ", decimal_i32(other).as_str()),
            ),
        ),
    }
}

impl GgufImage {
    /// The directory entry of a tensor.
    pub open spec fn info(self, name: Seq<char>) -> Result<TensorEntry, Seq<char>> {
        if self.tensors.dom().contains(name) {
            Ok(self.tensors[name])
        } else {
            Err("missing GGUF tensor "@ + name)
        }
    }

    /// The bytes of a tensor.
    pub open spec fn data(self, name: Seq<char>) -> Result<Seq<u8>, Seq<char>> {
        match self.info(name) {
            Err(text) => Err(text),
            Ok(info) => match tensor_nbytes(info) {
                Err(text) => Err(text),
                Ok(len) => {
                    let start = self.data_start + info.offset;
                    if start + len <= self.bytes.len() {
                        Ok(self.bytes.subrange(start, start + len))
                    } else {
                        Err("GGUF tensor "@ + name + " data is out of bounds"@)
                    }
                },
            },
        }
    }

    /// A whole number in the metadata.
    pub open spec fn number(self, key: Seq<char>) -> Result<usize, Seq<char>> {
        let missing = Err("missing or invalid GGUF metadata `"@ + key + "`"@);
        if self.metadata.dom().contains(key) {
            match self.metadata[key] {
                GgufValue::U32(value) => Ok(value as usize),
                GgufValue::U64(value) => Ok(value as usize),
                _ => missing,
            }
        } else {
            missing
        }
    }

    /// The bit pattern of a 32-bit float in the metadata.
    pub open spec fn float(self, key: Seq<char>) -> Result<u32, Seq<char>> {
        let missing = Err("missing or invalid GGUF metadata `"@ + key + "`"@);
        if self.metadata.dom().contains(key) {
            match self.metadata[key] {
                GgufValue::F32(bits) => Ok(bits),
                _ => missing,
            }
        } else {
            missing
        }
    }

    /// The length of an array in the metadata.
    pub open spec fn array_len(self, key: Seq<char>) -> Option<usize> {
        if self.metadata.dom().contains(key) {
            match self.metadata[key] {
                GgufValue::ArrayLen(len) => Some(len),
                _ => None,
            }
        } else {
            None
        }
    }
}

impl GgufFile {
    pub closed spec fn wf(&self) -> bool {
        self.metadata.wf() && self.tensors.wf()
    }

    fn read_body(bytes: &Vec<u8>, offset: usize, tensor_count: usize, metadata_count: usize) -> (result: Result<
        (usize, NameMap<GgufValue>, NameMap<GgufTensorInfo>),
        TinyAgentError,
    >)
        requires
            offset <= bytes@.len(),
        ensures
            match result {
                Ok(parts) => {
                    &&& parts.1.wf()
                    &&& parts.2.wf()
                    &&& body_at(
                        bytes@,
                        offset as nat,
                        tensor_count as nat,
                        metadata_count as nat,
                    ) == Ok::<GgufImage, Seq<char>>(
                        GgufImage {
                            bytes: bytes@,
                            data_start: parts.0 as nat,
                            metadata: parts.1@,
                            tensors: parts.2@,
                        },
                    )
                },
                Err(error) => error@ is Configuration && body_at(
                    bytes@,
                    offset as nat,
                    tensor_count as nat,
                    metadata_count as nat,
                ) == Err::<GgufImage, Seq<char>>(error@->Configuration_0),
            },
    {
        let mut reader = GgufReader { bytes: bytes.as_slice(), offset };
        let metadata = match read_metadata(&mut reader, metadata_count) {
            Ok(metadata) => metadata,
            Err(error) => return Err(error),
        };
        let alignment: usize = match metadata.get("general.alignment") {
            Some(GgufValue::U32(value)) => *value as usize,
            Some(GgufValue::U64(value)) => *value as usize,
            _ => 32,
        };
        if !power_of_two(alignment) {
            return Err(
                TinyAgentError::Configuration(
                    cat2("invalid GGUF general.alignment ", decimal_usize(alignment).as_str()),
                ),
            );
        }
        let tensors = match read_tensors(&mut reader, tensor_count) {
            Ok(tensors) => tensors,
            Err(error) => return Err(error),
        };
        match align_up(reader.offset, alignment) {
            Ok(data_start) => Ok((data_start, metadata, tensors)),
            Err(error) => Err(error),
        }
    }

    /// The file that the bytes hold.
    pub fn read(bytes: Vec<u8>) -> (result: Result<GgufFile, TinyAgentError>)
        ensures
            config_outcome(result, gguf_image(bytes@)),
            result is Ok ==> result->Ok_0.wf(),
    {
        let mut reader = GgufReader::new(bytes.as_slice());
        let magic = match reader.read_bytes(4) {
            Ok(magic) => magic,
            Err(error) => return Err(error),
        };
        assert(magic@ =~= gguf_magic() <==> magic@[0] == 0x47 && magic@[1] == 0x47 && magic@[2]
            == 0x55 && magic@[3] == 0x46);
        if !(magic[0] == 0x47 && magic[1] == 0x47 && magic[2] == 0x55 && magic[3] == 0x46) {
            return Err(config_error("invalid GGUF file: missing GGUF magic"));
        }
        let version: u32 = match reader.read_u32() {
            Ok(version) => version,
            Err(error) => return Err(error),
        };
        if version != 3 {
            return Err(
                TinyAgentError::Configuration(
                    cat3(
                        "unsupported GGUF version ",
                        decimal_u64(version as u64).as_str(),
                        "; expected version 3",
                    ),
                ),
            );
        }
        let tensor_count: usize = match reader.read_u64() {
            Ok(count) => count as usize,
            Err(error) => return Err(error),
        };
        let metadata_count: usize = match reader.read_u64() {
            Ok(count) => count as usize,
            Err(error) => return Err(error),
        };
        let offset: usize = reader.offset;
        match GgufFile::read_body(&bytes, offset, tensor_count, metadata_count) {
            Ok((data_start, metadata, tensors)) => Ok(
                GgufFile { bytes, data_start, metadata, tensors },
            ),
            Err(error) => Err(error),
        }
    }

    pub fn has_tensor(&self, name: &str) -> (found: bool)
        requires
            self.wf(),
        ensures
            found == self@.tensors.dom().contains(name@),
    {
        self.tensors.contains_key(name)
    }

    fn missing_metadata(key: &str) -> (error: TinyAgentError)
        ensures
            error@ == Fault::Configuration("missing or invalid GGUF metadata `"@ + key@ + "`"@),
    {
        TinyAgentError::Configuration(cat3("missing or invalid GGUF metadata `", key, "`"))
    }

    pub fn required_usize(&self, key: &str) -> (result: Result<usize, TinyAgentError>)
        requires
            self.wf(),
        ensures
            config_outcome(result, self@.number(key@)),
    {
        match self.metadata.get(key) {
            Some(GgufValue::U32(value)) => Ok(*value as usize),
            Some(GgufValue::U64(value)) => Ok(*value as usize),
            _ => Err(GgufFile::missing_metadata(key)),
        }
    }

    /// The bit pattern of a 32-bit float in the metadata.
    pub fn required_f32(&self, key: &str) -> (result: Result<u32, TinyAgentError>)
        requires
            self.wf(),
        ensures
            config_outcome(result, self@.float(key@)),
    {
        match self.metadata.get(key) {
            Some(GgufValue::F32(bits)) => Ok(*bits),
            _ => Err(GgufFile::missing_metadata(key)),
        }
    }

    pub fn metadata_array_len(&self, key: &str) -> (len: Option<usize>)
        requires
            self.wf(),
        ensures
            len == self@.array_len(key@),
    {
        match self.metadata.get(key) {
            Some(GgufValue::ArrayLen(len)) => Some(*len),
            _ => None,
        }
    }

    pub fn info(&self, name: &str) -> (result: Result<&GgufTensorInfo, TinyAgentError>)
        requires
            self.wf(),
        ensures
            config_outcome(result, self@.info(name@)),
    {
        match self.tensors.get(name) {
            Some(info) => Ok(info),
            None => Err(TinyAgentError::Configuration(cat2("missing GGUF tensor ", name))),
        }
    }

    pub fn tensor_bytes(&self, name: &str) -> (result: Result<&[u8], TinyAgentError>)
        requires
            self.wf(),
        ensures
            config_outcome(result, self@.data(name@)),
    {
        let info = match self.info(name) {
            Ok(info) => info,
            Err(error) => return Err(error),
        };
        let len: usize = match gguf_tensor_nbytes(info) {
            Ok(len) => len,
            Err(error) => return Err(error),
        };
        let start: u128 = self.data_start as u128 + info.offset as u128;
        let end: u128 = start + len as u128;
        if end <= self.bytes.len() as u128 {
            Ok(
                vstd::slice::slice_subrange(
                    self.bytes.as_slice(),
                    start as usize,
                    end as usize,
                ),
            )
        } else {
            Err(
                TinyAgentError::Configuration(
                    cat3("GGUF tensor ", name, " data is out of bounds"),
                ),
            )
        }
    }
}

/// The data of a tensor begin at its offset behind the start of the data, and
/// are as long as its type asks for: four bytes for each float, 18 for each 32
/// numbers of four bits, 34 for each 32 bytes.
#[verifier::rlimit(50)]
pub proof fn tensor_data_are_sized_by_type(image: GgufImage, name: Seq<char>, at: int)
    requires
        image.data(name) is Ok,
    ensures
        ({
            let info = image.tensors[name];
            let data = image.data(name)->Ok_0;
            let elements = if info.dims.len() == 1 {
                info.dims[0] as int
            } else {
                info.dims[0] * info.dims[1]
            };
            &&& image.tensors.dom().contains(name)
            &&& info.ggml_type == 0 || info.ggml_type == 2 || info.ggml_type == 8
            &&& info.dims.len() == 1 || info.dims.len() == 2 ==> {
                &&& info.ggml_type == 0 ==> data.len() == 4 * elements
                &&& info.ggml_type == 2 ==> 32 * data.len() == 18 * elements
                &&& info.ggml_type == 8 ==> 32 * data.len() == 34 * elements
            }
            &&& 0 <= at < data.len() ==> data[at] == image.bytes[image.data_start + info.offset
                + at]
        }),
{
    let info = image.tensors[name];
    let dims = info.dims;
    reveal_with_fuel(element_count, 3);
    if dims.len() == 1 {
        assert(dims.drop_last() =~= Seq::<usize>::empty());
        assert(1 * dims[0] == dims[0]);
    } else if dims.len() == 2 {
        assert(dims.drop_last().drop_last() =~= Seq::<usize>::empty());
        assert(dims.drop_last().last() == dims[0]);
        assert(1 * dims[0] == dims[0]);
    }
}

/// More dimensions multiply the elements: a tensor has as many as the one
/// without its last dimension has, times that.
pub proof fn elements_multiply(dims: Seq<usize>, more: usize)
    ensures
        match (element_count(dims), element_count(dims.push(more))) {
            (Some(fewer), Some(count)) => count == fewer * more && count <= usize::MAX,
            (Some(fewer), None) => fewer * more > usize::MAX,
            (None, all) => all is None,
        },
        element_count(Seq::empty()) == Some(1nat),
{
    assert(dims.push(more).drop_last() =~= dims);
}

/// The data of a tensor of whole blocks are there just where the file is long
/// enough for them, as far as their bytes can be counted.
#[verifier::rlimit(50)]
pub proof fn data_are_there_where_the_file_is_long_enough(image: GgufImage, name: Seq<char>)
    requires
        image.tensors.dom().contains(name),
        image.tensors[name].dims.len() == 2,
        image.tensors[name].dims[0] % 32 == 0,
        34 * (image.tensors[name].dims[0] * image.tensors[name].dims[1]) <= usize::MAX,
    ensures
        ({
            let info = image.tensors[name];
            let elements = info.dims[0] * info.dims[1];
            let start = image.data_start + info.offset;
            &&& info.ggml_type == 0 ==> (image.data(name) is Ok <==> start + 4 * elements
                <= image.bytes.len())
            &&& info.ggml_type == 2 ==> (image.data(name) is Ok <==> start + elements / 32 * 18
                <= image.bytes.len())
            &&& info.ggml_type == 8 ==> (image.data(name) is Ok <==> start + elements / 32 * 34
                <= image.bytes.len())
        }),
{
    let dims = image.tensors[name].dims;
    let (a, b) = (dims[0] as int, dims[1] as int);
    reveal_with_fuel(element_count, 3);
    assert(dims.drop_last().drop_last() =~= Seq::<usize>::empty());
    assert(dims.drop_last().last() == dims[0]);
    assert(1 * dims[0] == dims[0]);
    let groups = a / 32;
    assert(a * b == 32 * (groups * b) && 0 <= groups * b) by (nonlinear_arith)
        requires
            a == 32 * groups,
            0 <= groups,
            0 <= b,
    ;
}

} // verus!
