//! The GGUF container: header, metadata and tensor directory.

use crate::error::{config_error, config_outcome, TinyAgentError};
use crate::text::{cat2, decimal, decimal_i32, signed_decimal};
use vstd::arithmetic::power2::is_pow2;
use vstd::prelude::*;
use vstd::utf8::{decode_utf8, valid_utf8};

verus! {

pub const GGUF_TYPE_UINT8: i32 = 0;

pub const GGUF_TYPE_INT8: i32 = 1;

pub const GGUF_TYPE_UINT16: i32 = 2;

pub const GGUF_TYPE_INT16: i32 = 3;

pub const GGUF_TYPE_UINT32: i32 = 4;

pub const GGUF_TYPE_INT32: i32 = 5;

pub const GGUF_TYPE_FLOAT32: i32 = 6;

pub const GGUF_TYPE_BOOL: i32 = 7;

pub const GGUF_TYPE_STRING: i32 = 8;

pub const GGUF_TYPE_ARRAY: i32 = 9;

pub const GGUF_TYPE_UINT64: i32 = 10;

pub const GGUF_TYPE_INT64: i32 = 11;

pub const GGUF_TYPE_FLOAT64: i32 = 12;

pub const GGML_TYPE_F32: i32 = 0;

pub const GGML_TYPE_Q4_0: i32 = 2;

pub const GGML_TYPE_Q8_0: i32 = 8;

pub const GGML_Q4_0_BLOCK_SIZE: usize = 32;

pub const GGML_Q4_0_BLOCK_BYTES: usize = 18;

pub const GGML_Q8_0_BLOCK_SIZE: usize = 32;

pub const GGML_Q8_0_BLOCK_BYTES: usize = 34;

/// A metadata value. A 32-bit float is kept as its bit pattern; of an array
/// only the length is kept, and of the remaining types nothing.
#[derive(Debug, Clone, Copy, PartialEq, Eq, Structural)]
pub enum GgufValue {
    U32(u32),
    U64(u64),
    F32(u32),
    ArrayLen(usize),
    Other,
}

impl View for GgufValue {
    type V = GgufValue;

    open spec fn view(&self) -> GgufValue {
        *self
    }
}

/// One entry of the tensor directory; `offset` counts from the data section.
#[derive(Debug, Clone)]
pub struct GgufTensorInfo {
    pub ggml_type: i32,
    pub dims: Vec<usize>,
    pub offset: usize,
}

/// The mathematical value of a `GgufTensorInfo`.
pub struct TensorEntry {
    pub ggml_type: i32,
    pub dims: Seq<usize>,
    pub offset: usize,
}

impl View for GgufTensorInfo {
    type V = TensorEntry;

    open spec fn view(&self) -> TensorEntry {
        TensorEntry { ggml_type: self.ggml_type, dims: self.dims@, offset: self.offset }
    }
}

/// What reading at some offset gives, and the offset at which reading stopped.
pub type Step<T> = (Result<T, Seq<char>>, nat);

/// The next `len` bytes.
pub open spec fn bytes_at(bytes: Seq<u8>, offset: nat, len: nat) -> Step<Seq<u8>> {
    if offset + len <= bytes.len() {
        (Ok(bytes.subrange(offset as int, (offset + len) as int)), offset + len)
    } else {
        (Err("truncated GGUF file"@), offset)
    }
}

/// The number that bytes spell, least significant byte first.
pub open spec fn little_endian(bytes: Seq<u8>) -> nat
    decreases bytes.len(),
{
    if bytes.len() == 0 {
        0
    } else {
        bytes[0] as nat + 256 * little_endian(bytes.drop_first())
    }
}

/// The value of a 32-bit pattern in two's complement.
pub open spec fn twos_complement_32(bits: nat) -> int {
    if bits < 0x8000_0000 {
        bits as int
    } else {
        bits - 0x1_0000_0000
    }
}

pub open spec fn u32_at(bytes: Seq<u8>, offset: nat) -> Step<u32> {
    match bytes_at(bytes, offset, 4) {
        (Ok(taken), next) => (Ok(little_endian(taken) as u32), next),
        (Err(message), next) => (Err(message), next),
    }
}

pub open spec fn i32_at(bytes: Seq<u8>, offset: nat) -> Step<i32> {
    match bytes_at(bytes, offset, 4) {
        (Ok(taken), next) => (Ok(twos_complement_32(little_endian(taken)) as i32), next),
        (Err(message), next) => (Err(message), next),
    }
}

pub open spec fn u64_at(bytes: Seq<u8>, offset: nat) -> Step<u64> {
    match bytes_at(bytes, offset, 8) {
        (Ok(taken), next) => (Ok(little_endian(taken) as u64), next),
        (Err(message), next) => (Err(message), next),
    }
}

/// What the standard library says of bytes that are not UTF-8.
pub uninterp spec fn utf8_error_text(bytes: Seq<u8>) -> Seq<char>;

/// A string: its length in bytes, then that many bytes of UTF-8.
pub open spec fn string_at(bytes: Seq<u8>, offset: nat) -> Step<Seq<char>> {
    match u64_at(bytes, offset) {
        (Err(message), next) => (Err(message), next),
        (Ok(len), next) => match bytes_at(bytes, next, (len as usize) as nat) {
            (Err(message), next) => (Err(message), next),
            (Ok(taken), next) => if valid_utf8(taken) {
                (Ok(decode_utf8(taken)), next)
            } else {
                (Err("invalid UTF-8 string in GGUF: "@ + utf8_error_text(taken)), next)
            },
        },
    }
}

/// The number of bytes of a metadata value of fixed size.
pub open spec fn fixed_size(value_type: i32) -> Option<nat> {
    if value_type == GGUF_TYPE_UINT8 || value_type == GGUF_TYPE_INT8 || value_type
        == GGUF_TYPE_BOOL {
        Some(1)
    } else if value_type == GGUF_TYPE_UINT16 || value_type == GGUF_TYPE_INT16 {
        Some(2)
    } else if value_type == GGUF_TYPE_UINT32 || value_type == GGUF_TYPE_INT32 || value_type
        == GGUF_TYPE_FLOAT32 {
        Some(4)
    } else if value_type == GGUF_TYPE_UINT64 || value_type == GGUF_TYPE_INT64 || value_type
        == GGUF_TYPE_FLOAT64 {
        Some(8)
    } else {
        None
    }
}

/// Passing over one value that is not an array.
pub open spec fn scalar_skipped(bytes: Seq<u8>, offset: nat, value_type: i32) -> Step<()> {
    if value_type == GGUF_TYPE_STRING {
        match string_at(bytes, offset) {
            (Ok(_), next) => (Ok(()), next),
            (Err(message), next) => (Err(message), next),
        }
    } else {
        match fixed_size(value_type) {
            Some(size) => match bytes_at(bytes, offset, size) {
                (Ok(_), next) => (Ok(()), next),
                (Err(message), next) => (Err(message), next),
            },
            None => (
                Err("unsupported GGUF metadata value type "@ + signed_decimal(value_type as int)),
                offset,
            ),
        }
    }
}

/// Passing over `count` values of one type.
pub open spec fn scalars_skipped(
    bytes: Seq<u8>,
    offset: nat,
    value_type: i32,
    count: nat,
) -> Step<()>
    decreases count,
{
    if count == 0 {
        (Ok(()), offset)
    } else {
        match scalars_skipped(bytes, offset, value_type, (count - 1) as nat) {
            (Ok(_), next) => scalar_skipped(bytes, next, value_type),
            (Err(message), next) => (Err(message), next),
        }
    }
}

/// A metadata value of the given type.
pub open spec fn value_at(bytes: Seq<u8>, offset: nat, value_type: i32) -> Step<GgufValue> {
    if value_type == GGUF_TYPE_UINT32 {
        match u32_at(bytes, offset) {
            (Ok(value), next) => (Ok(GgufValue::U32(value)), next),
            (Err(message), next) => (Err(message), next),
        }
    } else if value_type == GGUF_TYPE_UINT64 {
        match u64_at(bytes, offset) {
            (Ok(value), next) => (Ok(GgufValue::U64(value)), next),
            (Err(message), next) => (Err(message), next),
        }
    } else if value_type == GGUF_TYPE_FLOAT32 {
        match u32_at(bytes, offset) {
            (Ok(value), next) => (Ok(GgufValue::F32(value)), next),
            (Err(message), next) => (Err(message), next),
        }
    } else if value_type == GGUF_TYPE_ARRAY {
        match i32_at(bytes, offset) {
            (Err(message), next) => (Err(message), next),
            (Ok(element_type), next) => match u64_at(bytes, next) {
                (Err(message), next) => (Err(message), next),
                (Ok(len), next) => match scalars_skipped(
                    bytes,
                    next,
                    element_type,
                    (len as usize) as nat,
                ) {
                    (Err(message), next) => (Err(message), next),
                    (Ok(_), next) => (Ok(GgufValue::ArrayLen(len as usize)), next),
                },
            },
        }
    } else {
        match scalar_skipped(bytes, offset, value_type) {
            (Ok(_), next) => (Ok(GgufValue::Other), next),
            (Err(message), next) => (Err(message), next),
        }
    }
}

/// One metadata entry: a key, the type of its value, the value.
pub open spec fn entry_at(bytes: Seq<u8>, offset: nat) -> Step<(Seq<char>, GgufValue)> {
    match string_at(bytes, offset) {
        (Err(message), next) => (Err(message), next),
        (Ok(key), next) => match i32_at(bytes, next) {
            (Err(message), next) => (Err(message), next),
            (Ok(value_type), next) => match value_at(bytes, next, value_type) {
                (Err(message), next) => (Err(message), next),
                (Ok(value), next) => (Ok((key, value)), next),
            },
        },
    }
}

/// `count` metadata entries; of a key that stands twice the later value counts.
pub open spec fn metadata_at(bytes: Seq<u8>, offset: nat, count: nat) -> Step<
    Map<Seq<char>, GgufValue>,
>
    decreases count,
{
    if count == 0 {
        (Ok(Map::empty()), offset)
    } else {
        match metadata_at(bytes, offset, (count - 1) as nat) {
            (Err(message), next) => (Err(message), next),
            (Ok(map), next) => match entry_at(bytes, next) {
                (Err(message), next) => (Err(message), next),
                (Ok(entry), next) => (Ok(map.insert(entry.0, entry.1)), next),
            },
        }
    }
}

/// `count` dimensions.
pub open spec fn dims_at(bytes: Seq<u8>, offset: nat, count: nat) -> Step<Seq<usize>>
    decreases count,
{
    if count == 0 {
        (Ok(Seq::empty()), offset)
    } else {
        match dims_at(bytes, offset, (count - 1) as nat) {
            (Err(message), next) => (Err(message), next),
            (Ok(dims), next) => match u64_at(bytes, next) {
                (Err(message), next) => (Err(message), next),
                (Ok(dim), next) => (Ok(dims.push(dim as usize)), next),
            },
        }
    }
}

/// One entry of the tensor directory: name, rank, dimensions, type, offset.
pub open spec fn tensor_at(bytes: Seq<u8>, offset: nat) -> Step<(Seq<char>, TensorEntry)> {
    match string_at(bytes, offset) {
        (Err(message), next) => (Err(message), next),
        (Ok(name), next) => match u32_at(bytes, next) {
            (Err(message), next) => (Err(message), next),
            (Ok(rank), next) => match dims_at(bytes, next, rank as nat) {
                (Err(message), next) => (Err(message), next),
                (Ok(dims), next) => match i32_at(bytes, next) {
                    (Err(message), next) => (Err(message), next),
                    (Ok(ggml_type), next) => match u64_at(bytes, next) {
                        (Err(message), next) => (Err(message), next),
                        (Ok(data), next) => (
                            Ok((name, TensorEntry { ggml_type, dims, offset: data as usize })),
                            next,
                        ),
                    },
                },
            },
        },
    }
}

/// `count` entries of the tensor directory; of a name that stands twice the
/// later entry counts.
pub open spec fn tensors_at(bytes: Seq<u8>, offset: nat, count: nat) -> Step<
    Map<Seq<char>, TensorEntry>,
>
    decreases count,
{
    if count == 0 {
        (Ok(Map::empty()), offset)
    } else {
        match tensors_at(bytes, offset, (count - 1) as nat) {
            (Err(message), next) => (Err(message), next),
            (Ok(map), next) => match tensor_at(bytes, next) {
                (Err(message), next) => (Err(message), next),
                (Ok(entry), next) => (Ok(map.insert(entry.0, entry.1)), next),
            },
        }
    }
}

/// The alignment of the data section: what the metadata asks for, else 32.
pub open spec fn alignment_of(metadata: Map<Seq<char>, GgufValue>) -> usize {
    let key = "general.alignment"@;
    if metadata.dom().contains(key) {
        match metadata[key] {
            GgufValue::U32(value) => value as usize,
            GgufValue::U64(value) => value as usize,
            _ => 32,
        }
    } else {
        32
    }
}

/// The least multiple of `alignment` that is no less than `value`.
pub open spec fn aligned(value: nat, alignment: nat) -> nat {
    ((value + alignment - 1) / alignment as int * alignment) as nat
}

/// The mathematical value of a `GgufFile`.
pub struct GgufImage {
    pub bytes: Seq<u8>,
    pub data_start: nat,
    pub metadata: Map<Seq<char>, GgufValue>,
    pub tensors: Map<Seq<char>, TensorEntry>,
}

/// What follows the two counts of the header.
pub open spec fn body_at(bytes: Seq<u8>, offset: nat, tensor_count: nat, metadata_count: nat) -> Result<
    GgufImage,
    Seq<char>,
> {
    match metadata_at(bytes, offset, metadata_count) {
        (Err(message), _) => Err(message),
        (Ok(metadata), next) => {
            let alignment = alignment_of(metadata);
            if !is_pow2(alignment as int) {
                Err("invalid GGUF general.alignment "@ + decimal(alignment as nat))
            } else {
                match tensors_at(bytes, next, tensor_count) {
                    (Err(message), _) => Err(message),
                    (Ok(tensors), next) => if next + alignment - 1 > usize::MAX {
                        Err("GGUF alignment overflow"@)
                    } else {
                        Ok(
                            GgufImage {
                                bytes,
                                data_start: aligned(next, alignment as nat),
                                metadata,
                                tensors,
                            },
                        )
                    },
                }
            }
        },
    }
}

/// The bytes that every GGUF file begins with.
pub open spec fn gguf_magic() -> Seq<u8> {
    seq![0x47u8, 0x47u8, 0x55u8, 0x46u8]
}

/// What the bytes of a file hold.
pub open spec fn gguf_image(bytes: Seq<u8>) -> Result<GgufImage, Seq<char>> {
    match bytes_at(bytes, 0, 4) {
        (Err(message), _) => Err(message),
        (Ok(magic), next) => if magic != gguf_magic() {
            Err("invalid GGUF file: missing GGUF magic"@)
        } else {
            match u32_at(bytes, next) {
                (Err(message), _) => Err(message),
                (Ok(version), next) => if version != 3 {
                    Err(
                        "unsupported GGUF version "@ + decimal(version as nat)
                            + "; expected version 3"@,
                    )
                } else {
                    match u64_at(bytes, next) {
                        (Err(message), _) => Err(message),
                        (Ok(tensor_count), next) => match u64_at(bytes, next) {
                            (Err(message), _) => Err(message),
                            (Ok(metadata_count), next) => body_at(
                                bytes,
                                next,
                                (tensor_count as usize) as nat,
                                (metadata_count as usize) as nat,
                            ),
                        },
                    }
                },
            }
        },
    }
}

/// `String::from_utf8` gives the text that the bytes encode where they are
/// UTF-8, and otherwise an error whose text depends on the bytes alone.
#[verifier::external_body]
fn string_from_utf8(bytes: Vec<u8>) -> (result: Result<String, String>)
    ensures
        match result {
            Ok(text) => valid_utf8(bytes@) && text@ == decode_utf8(bytes@),
            Err(text) => !valid_utf8(bytes@) && text@ == utf8_error_text(bytes@),
        },
{
    String::from_utf8(bytes).map_err(|error| error.to_string())
}

/// The outcome of a reader's method is the step that the specification gives.
pub open spec fn stepped<T: View>(
    result: Result<T, TinyAgentError>,
    offset: usize,
    step: Step<T::V>,
) -> bool {
    config_outcome(result, step.0) && offset == step.1
}

pub proof fn lemma_little_endian_4(bytes: Seq<u8>)
    requires
        bytes.len() == 4,
    ensures
        little_endian(bytes) == bytes[0] + 256 * bytes[1] + 65536 * bytes[2] + 16777216 * bytes[3],
{
    reveal_with_fuel(little_endian, 5);
}

pub proof fn lemma_little_endian_8(bytes: Seq<u8>)
    requires
        bytes.len() == 8,
    ensures
        little_endian(bytes) == little_endian(bytes.subrange(0, 4)) + 0x1_0000_0000
            * little_endian(bytes.subrange(4, 8)),
{
    reveal_with_fuel(little_endian, 9);
    lemma_little_endian_4(bytes.subrange(0, 4));
    lemma_little_endian_4(bytes.subrange(4, 8));
}

fn u32_from_le(bytes: &[u8]) -> (value: u32)
    requires
        bytes@.len() == 4,
    ensures
        value == little_endian(bytes@),
{
    proof {
        lemma_little_endian_4(bytes@);
    }
    bytes[0] as u32 + 256 * (bytes[1] as u32) + 65536 * (bytes[2] as u32) + 16777216 * (
    bytes[3] as u32)
}

fn u64_from_le(bytes: &[u8]) -> (value: u64)
    requires
        bytes@.len() == 8,
    ensures
        value == little_endian(bytes@),
{
    let low: u32 = u32_from_le(vstd::slice::slice_subrange(bytes, 0, 4));
    let high: u32 = u32_from_le(vstd::slice::slice_subrange(bytes, 4, 8));
    proof {
        lemma_little_endian_8(bytes@);
    }
    low as u64 + 0x1_0000_0000 * (high as u64)
}

fn bytes_to_vec(bytes: &[u8]) -> (copy: Vec<u8>)
    ensures
        copy@ == bytes@,
{
    let mut copy: Vec<u8> = Vec::new();
    let mut index: usize = 0;
    while index < bytes.len()
        invariant
            index <= bytes@.len(),
            copy@ == bytes@.take(index as int),
        decreases bytes@.len() - index,
    {
        copy.push(bytes[index]);
        index = index + 1;
        assert(copy@ =~= bytes@.take(index as int));
    }
    assert(bytes@.take(index as int) =~= bytes@);
    copy
}

/// A cursor over the bytes of a file.
pub struct GgufReader<'a> {
    pub bytes: &'a [u8],
    pub offset: usize,
}

impl<'a> GgufReader<'a> {
    /// The cursor does not stand behind the end.
    pub open spec fn wf(&self) -> bool {
        self.offset <= self.bytes@.len()
    }

    pub fn new(bytes: &'a [u8]) -> (reader: Self)
        ensures
            reader.wf(),
            reader.bytes@ == bytes@,
            reader.offset == 0,
    {
        GgufReader { bytes, offset: 0 }
    }

    pub fn read_bytes(&mut self, len: usize) -> (result: Result<&'a [u8], TinyAgentError>)
        requires
            old(self).wf(),
        ensures
            final(self).wf(),
            final(self).bytes@ == old(self).bytes@,
            stepped(
                result,
                final(self).offset,
                bytes_at(old(self).bytes@, old(self).offset as nat, len as nat),
            ),
    {
        if len > self.bytes.len() - self.offset {
            return Err(config_error("truncated GGUF file"));
        }
        let start: usize = self.offset;
        let end: usize = start + len;
        let taken = vstd::slice::slice_subrange(self.bytes, start, end);
        self.offset = end;
        Ok(taken)
    }

    pub fn read_u32(&mut self) -> (result: Result<u32, TinyAgentError>)
        requires
            old(self).wf(),
        ensures
            final(self).wf(),
            final(self).bytes@ == old(self).bytes@,
            stepped(result, final(self).offset, u32_at(old(self).bytes@, old(self).offset as nat)),
    {
        match self.read_bytes(4) {
            Ok(taken) => Ok(u32_from_le(taken)),
            Err(error) => Err(error),
        }
    }

    pub fn read_i32(&mut self) -> (result: Result<i32, TinyAgentError>)
        requires
            old(self).wf(),
        ensures
            final(self).wf(),
            final(self).bytes@ == old(self).bytes@,
            stepped(result, final(self).offset, i32_at(old(self).bytes@, old(self).offset as nat)),
    {
        match self.read_bytes(4) {
            Ok(taken) => {
                let bits: u32 = u32_from_le(taken);
                if bits < 0x8000_0000 {
                    Ok(bits as i32)
                } else {
                    Ok((bits as i64 - 0x1_0000_0000) as i32)
                }
            },
            Err(error) => Err(error),
        }
    }

    pub fn read_u64(&mut self) -> (result: Result<u64, TinyAgentError>)
        requires
            old(self).wf(),
        ensures
            final(self).wf(),
            final(self).bytes@ == old(self).bytes@,
            stepped(result, final(self).offset, u64_at(old(self).bytes@, old(self).offset as nat)),
    {
        match self.read_bytes(8) {
            Ok(taken) => Ok(u64_from_le(taken)),
            Err(error) => Err(error),
        }
    }

    /// The bit pattern of a 32-bit float.
    pub fn read_f32(&mut self) -> (result: Result<u32, TinyAgentError>)
        requires
            old(self).wf(),
        ensures
            final(self).wf(),
            final(self).bytes@ == old(self).bytes@,
            stepped(result, final(self).offset, u32_at(old(self).bytes@, old(self).offset as nat)),
    {
        self.read_u32()
    }

    pub fn read_string(&mut self) -> (result: Result<String, TinyAgentError>)
        requires
            old(self).wf(),
        ensures
            final(self).wf(),
            final(self).bytes@ == old(self).bytes@,
            stepped(
                result,
                final(self).offset,
                string_at(old(self).bytes@, old(self).offset as nat),
            ),
    {
        let len: usize = match self.read_u64() {
            Ok(len) => len as usize,
            Err(error) => return Err(error),
        };
        let taken = match self.read_bytes(len) {
            Ok(taken) => taken,
            Err(error) => return Err(error),
        };
        match string_from_utf8(bytes_to_vec(taken)) {
            Ok(text) => Ok(text),
            Err(text) => Err(
                TinyAgentError::Configuration(
                    cat2("invalid UTF-8 string in GGUF: ", text.as_str()),
                ),
            ),
        }
    }

    pub fn skip_metadata_scalar(&mut self, value_type: i32) -> (result: Result<(), TinyAgentError>)
        requires
            old(self).wf(),
        ensures
            final(self).wf(),
            final(self).bytes@ == old(self).bytes@,
            stepped(
                result,
                final(self).offset,
                scalar_skipped(old(self).bytes@, old(self).offset as nat, value_type),
            ),
    {
        if value_type == GGUF_TYPE_STRING {
            return match self.read_string() {
                Ok(_) => Ok(()),
                Err(error) => Err(error),
            };
        }
        let size: usize = match value_type {
            GGUF_TYPE_UINT8 | GGUF_TYPE_INT8 | GGUF_TYPE_BOOL => 1,
            GGUF_TYPE_UINT16 | GGUF_TYPE_INT16 => 2,
            GGUF_TYPE_UINT32 | GGUF_TYPE_INT32 | GGUF_TYPE_FLOAT32 => 4,
            GGUF_TYPE_UINT64 | GGUF_TYPE_INT64 | GGUF_TYPE_FLOAT64 => 8,
            other => {
                return Err(
                    TinyAgentError::Configuration(
                        cat2(
                            "unsupported GGUF metadata value type ",
                            decimal_i32(other).as_str(),
                        ),
                    ),
                );
            },
        };
        match self.read_bytes(size) {
            Ok(_) => Ok(()),
            Err(error) => Err(error),
        }
    }

    fn skip_metadata_scalars(&mut self, value_type: i32, count: usize) -> (result: Result<
        (),
        TinyAgentError,
    >)
        requires
            old(self).wf(),
        ensures
            final(self).wf(),
            final(self).bytes@ == old(self).bytes@,
            stepped(
                result,
                final(self).offset,
                scalars_skipped(
                    old(self).bytes@,
                    old(self).offset as nat,
                    value_type,
                    count as nat,
                ),
            ),
    {
        let ghost start = self.offset as nat;
        let mut done: usize = 0;
        while done < count
            invariant
                self.wf(),
                self.bytes@ == old(self).bytes@,
                done <= count,
                start == old(self).offset,
                scalars_skipped(self.bytes@, start, value_type, done as nat) == (
                    Ok::<(), Seq<char>>(()),
                    self.offset as nat,
                ),
            decreases count - done,
        {
            let ghost here = self.offset as nat;
            match self.skip_metadata_scalar(value_type) {
                Ok(_) => {},
                Err(error) => {
                    proof {
                        lemma_skip_fails(
                            self.bytes@,
                            start,
                            value_type,
                            (done + 1) as nat,
                            count as nat,
                        );
                    }
                    return Err(error);
                },
            }
            done = done + 1;
        }
        Ok(())
    }

    pub fn read_metadata_value(&mut self, value_type: i32) -> (result: Result<
        GgufValue,
        TinyAgentError,
    >)
        requires
            old(self).wf(),
        ensures
            final(self).wf(),
            final(self).bytes@ == old(self).bytes@,
            stepped(
                result,
                final(self).offset,
                value_at(old(self).bytes@, old(self).offset as nat, value_type),
            ),
    {
        match value_type {
            GGUF_TYPE_UINT32 => match self.read_u32() {
                Ok(value) => Ok(GgufValue::U32(value)),
                Err(error) => Err(error),
            },
            GGUF_TYPE_UINT64 => match self.read_u64() {
                Ok(value) => Ok(GgufValue::U64(value)),
                Err(error) => Err(error),
            },
            GGUF_TYPE_FLOAT32 => match self.read_f32() {
                Ok(value) => Ok(GgufValue::F32(value)),
                Err(error) => Err(error),
            },
            GGUF_TYPE_ARRAY => {
                let element_type: i32 = match self.read_i32() {
                    Ok(element_type) => element_type,
                    Err(error) => return Err(error),
                };
                let len: usize = match self.read_u64() {
                    Ok(len) => len as usize,
                    Err(error) => return Err(error),
                };
                match self.skip_metadata_scalars(element_type, len) {
                    Ok(_) => Ok(GgufValue::ArrayLen(len)),
                    Err(error) => Err(error),
                }
            },
            other => match self.skip_metadata_scalar(other) {
                Ok(_) => Ok(GgufValue::Other),
                Err(error) => Err(error),
            },
        }
    }
}

/// Where passing over some values fails, passing over more of them fails alike.
proof fn lemma_skip_fails(bytes: Seq<u8>, offset: nat, value_type: i32, fewer: nat, more: nat)
    requires
        fewer <= more,
        scalars_skipped(bytes, offset, value_type, fewer).0 is Err,
    ensures
        scalars_skipped(bytes, offset, value_type, more) == scalars_skipped(
            bytes,
            offset,
            value_type,
            fewer,
        ),
    decreases more,
{
    if fewer < more {
        lemma_skip_fails(bytes, offset, value_type, fewer, (more - 1) as nat);
    }
}

} // verus!
