//! The tensors of a GGUF file, unpacked.

use crate::error::{config_outcome, TinyAgentError};
use crate::gguf::{
    lemma_little_endian_4, little_endian, GgufImage, GGML_TYPE_F32, GGML_TYPE_Q4_0, GGML_TYPE_Q8_0,
};
use crate::gguf_file::{element_count, GgufFile};
use crate::quant::{
    four_bit, lemma_packed_bound, lemma_row_major, packed, packed_digit_reads_back, pow16,
    QuantEncoding, QuantMatrix, QuantTensor, ScaleFormat,
};
use crate::text::{cat2, cat4, decimal, decimal_usize};
use vstd::prelude::*;

verus! {

/// Bytes as 32-bit patterns, four bytes each, least significant byte first.
pub open spec fn words_of(data: Seq<u8>) -> Seq<u32> {
    Seq::new(
        data.len() / 4,
        |i: int| little_endian(data.subrange(4 * i, 4 * i + 4)) as u32,
    )
}

/// Bytes as 16-bit patterns, two bytes each, least significant byte first.
pub open spec fn half_words_of(data: Seq<u8>) -> Seq<u16> {
    Seq::new(data.len() / 2, |i: int| (data[2 * i] + 256 * data[2 * i + 1]) as u16)
}

pub fn words_from(bytes: &[u8]) -> (words: Vec<u32>)
    ensures
        words@ == words_of(bytes@),
{
    let mut words: Vec<u32> = Vec::new();
    let mut index: usize = 0;
    let count: usize = bytes.len() / 4;
    while index < count
        invariant
            index <= count,
            count == bytes.len() / 4,
            bytes@.len() == bytes.len(),
            words@ == words_of(bytes@).take(index as int),
        decreases count - index,
    {
        let at: usize = 4 * index;
        proof {
            lemma_little_endian_4(bytes@.subrange(at as int, at + 4));
        }
        let word: u32 = bytes[at] as u32 + 256 * (bytes[at + 1] as u32) + 65536 * (
        bytes[at + 2] as u32) + 16777216 * (bytes[at + 3] as u32);
        words.push(word);
        index = index + 1;
        assert(words@ =~= words_of(bytes@).take(index as int));
    }
    assert(words_of(bytes@).take(index as int) =~= words_of(bytes@));
    words
}

pub fn half_words_from(bytes: &[u8]) -> (words: Vec<u16>)
    ensures
        words@ == half_words_of(bytes@),
{
    let mut words: Vec<u16> = Vec::new();
    let mut index: usize = 0;
    let count: usize = bytes.len() / 2;
    while index < count
        invariant
            index <= count,
            count == bytes.len() / 2,
            bytes@.len() == bytes.len(),
            words@ == half_words_of(bytes@).take(index as int),
        decreases count - index,
    {
        let at: usize = 2 * index;
        words.push(bytes[at] as u16 + 256 * (bytes[at + 1] as u16));
        index = index + 1;
        assert(words@ =~= half_words_of(bytes@).take(index as int));
    }
    assert(half_words_of(bytes@).take(index as int) =~= half_words_of(bytes@));
    words
}

/// Element `index` of a Q4_0 tensor. A block of 18 bytes holds a scale and 32
/// elements: the low halves of its last 16 bytes, then the high halves.
pub open spec fn q4_0_code(data: Seq<u8>, index: int) -> u32 {
    let byte = data[18 * (index / 32) + 2 + index % 16] as nat;
    if index % 32 < 16 {
        (byte % 16) as u32
    } else {
        (byte / 16) as u32
    }
}

/// Eight neighbouring elements.
pub open spec fn q4_0_codes(data: Seq<u8>, word: int) -> Seq<u32> {
    Seq::new(8, |j: int| q4_0_code(data, 8 * word + j))
}

/// The matrix that Q4_0 data holds.
pub open spec fn q4_0_matrix(name: Seq<char>, out_dim: usize, in_dim: usize, data: Seq<u8>) -> QuantMatrix {
    QuantMatrix {
        name,
        encoding: QuantEncoding::AffineQ4,
        out_dim,
        in_dim,
        packed_per_row: (in_dim / 8) as usize,
        groups_per_row: (in_dim / 32) as usize,
        group_size: 32,
        weight: Seq::new(
            (out_dim * (in_dim / 8)) as nat,
            |k: int| packed(q4_0_codes(data, k)) as u32,
        ),
        q8_values: Seq::empty(),
        scale_format: ScaleFormat::Half,
        scales: Seq::new(
            (out_dim * (in_dim / 32)) as nat,
            |b: int| (data[18 * b] + 256 * data[18 * b + 1]) as u16,
        ),
        biases: Seq::empty(),
    }
}

/// The value of a byte in two's complement.
pub open spec fn signed_byte(byte: u8) -> i8 {
    if byte < 128 {
        byte as i8
    } else {
        (byte - 256) as i8
    }
}

/// The matrix that Q8_0 data holds. A block of 34 bytes holds a scale and 32
/// elements.
pub open spec fn q8_0_matrix(name: Seq<char>, out_dim: usize, in_dim: usize, data: Seq<u8>) -> QuantMatrix {
    QuantMatrix {
        name,
        encoding: QuantEncoding::GgufQ8_0,
        out_dim,
        in_dim,
        packed_per_row: 0,
        groups_per_row: (in_dim / 32) as usize,
        group_size: 32,
        weight: Seq::empty(),
        q8_values: Seq::new(
            (out_dim * in_dim) as nat,
            |i: int| signed_byte(data[34 * (i / 32) + 2 + i % 32]),
        ),
        scale_format: ScaleFormat::Half,
        scales: Seq::new(
            (out_dim * (in_dim / 32)) as nat,
            |b: int| (data[34 * b] + 256 * data[34 * b + 1]) as u16,
        ),
        biases: Seq::empty(),
    }
}

impl GgufImage {
    /// A tensor of 32-bit floats, as bit patterns.
    pub open spec fn f32_tensor(self, name: Seq<char>) -> Result<Seq<u32>, Seq<char>> {
        match self.info(name) {
            Err(text) => Err(text),
            Ok(info) => if info.ggml_type != GGML_TYPE_F32 {
                Err(name + " must have GGUF type F32"@)
            } else {
                match self.data(name) {
                    Err(text) => Err(text),
                    Ok(data) => Ok(words_of(data)),
                }
            },
        }
    }

    /// The data of a matrix of blocks of 32, with its dimensions.
    pub open spec fn block_tensor(self, name: Seq<char>, ggml_type: i32, kind: Seq<char>) -> Result<
        (usize, usize, Seq<u8>),
        Seq<char>,
    > {
        match self.info(name) {
            Err(text) => Err(text),
            Ok(info) => if info.ggml_type != ggml_type || info.dims.len() != 2 {
                Err(name + " must be a rank-2 GGUF "@ + kind + " tensor"@)
            } else if info.dims[0] % 32 != 0 {
                Err(
                    name + " input dimension "@ + decimal(info.dims[0] as nat)
                        + " is not divisible by 32"@,
                )
            } else {
                match self.data(name) {
                    Err(text) => Err(text),
                    Ok(data) => Ok((info.dims[1], info.dims[0], data)),
                }
            },
        }
    }

    pub open spec fn q4_0_tensor(self, name: Seq<char>) -> Result<QuantMatrix, Seq<char>> {
        match self.block_tensor(name, GGML_TYPE_Q4_0, "Q4_0"@) {
            Err(text) => Err(text),
            Ok((out_dim, in_dim, data)) => Ok(q4_0_matrix(name, out_dim, in_dim, data)),
        }
    }

    pub open spec fn q8_0_tensor(self, name: Seq<char>) -> Result<QuantMatrix, Seq<char>> {
        match self.block_tensor(name, GGML_TYPE_Q8_0, "Q8_0"@) {
            Err(text) => Err(text),
            Ok((out_dim, in_dim, data)) => Ok(q8_0_matrix(name, out_dim, in_dim, data)),
        }
    }
}

/// The numbers of a matrix of blocks: how many blocks, bytes and elements.
#[verifier::rlimit(50)]
proof fn lemma_block_counts(image: GgufImage, name: Seq<char>, ggml_type: i32, kind: Seq<char>, block_bytes: int)
    requires
        image.block_tensor(name, ggml_type, kind) is Ok,
        (ggml_type == GGML_TYPE_Q4_0 && block_bytes == 18) || (ggml_type == GGML_TYPE_Q8_0
            && block_bytes == 34),
    ensures
        ({
            let (out_dim, in_dim, data) = image.block_tensor(name, ggml_type, kind)->Ok_0;
            let blocks = out_dim * (in_dim / 32);
            &&& in_dim % 32 == 0
            &&& data.len() == block_bytes * blocks
            &&& out_dim * in_dim == 32 * blocks
            &&& out_dim * (in_dim / 8) == 4 * blocks
            &&& 0 <= blocks
        }),
{
    let (out_dim, in_dim, data) = image.block_tensor(name, ggml_type, kind)->Ok_0;
    let info = image.tensors[name];
    let dims = info.dims;
    assert(element_count(dims.drop_last().drop_last()) == Some(1nat));
    assert(element_count(dims.drop_last()) == Some(in_dim as nat)) by {
        assert(dims.drop_last().last() == in_dim);
        assert(1 * in_dim as nat == in_dim as nat);
    }
    let blocks = out_dim * (in_dim / 32);
    let elements = (in_dim * out_dim) as nat;
    assert(element_count(dims) == Some(elements));
    let groups = in_dim as int / 32;
    assert(in_dim == 32 * groups && in_dim as int / 8 == 4 * groups);
    assert((32 * groups) * out_dim == 32 * (out_dim * groups) && out_dim * (32 * groups) == 32 * (
    out_dim * groups) && out_dim * (4 * groups) == 4 * (out_dim * groups)) by (nonlinear_arith);
    assert(0 <= out_dim * groups) by (nonlinear_arith)
        requires
            0 <= out_dim,
            0 <= groups,
    ;
}

/// The place of an element, counted row by row, in words and in blocks.
proof fn lemma_places(in_dim: int, row: int, input: int)
    requires
        in_dim % 32 == 0,
        0 <= row,
        0 <= input < in_dim,
    ensures
        row * in_dim + input == 8 * (row * (in_dim / 8) + input / 8) + input % 8,
        (row * in_dim + input) / 32 == row * (in_dim / 32) + input / 32,
        (row * in_dim + input) % 32 == input % 32,
{
    let groups = in_dim / 32;
    assert(in_dim == 32 * groups && in_dim / 8 == 4 * groups);
    assert(row * (32 * groups) == 32 * (row * groups) && row * (4 * groups) == 4 * (row * groups))
        by (nonlinear_arith);
}

proof fn lemma_q4_0_code(name: Seq<char>, out_dim: usize, in_dim: usize, data: Seq<u8>, row: int, input: int)
    requires
        in_dim % 32 == 0,
        0 <= row < out_dim,
        0 <= input < in_dim,
    ensures
        q4_0_matrix(name, out_dim, in_dim, data).code(row, input) == q4_0_code(
            data,
            row * in_dim + input,
        ),
{
    let matrix = q4_0_matrix(name, out_dim, in_dim, data);
    lemma_places(in_dim as int, row, input);
    lemma_row_major(out_dim as int, in_dim as int / 8, row, input / 8);
    let word = row * (in_dim as int / 8) + input / 8;
    let codes = q4_0_codes(data, word);
    assert(four_bit(codes));
    lemma_packed_bound(codes);
    reveal_with_fuel(pow16, 9);
    packed_digit_reads_back(codes, (input % 8) as nat);
    assert(matrix.weight[word] == packed(codes));
}

/// What is loaded from Q4_0 data covers its matrix, and each number of the
/// matrix is the element of the data at its place, counted row by row.
#[verifier::rlimit(50)]
pub proof fn q4_0_reads_back(image: GgufImage, name: Seq<char>, row: int, input: int)
    requires
        image.q4_0_tensor(name) is Ok,
        0 <= row < image.q4_0_tensor(name)->Ok_0.out_dim,
        0 <= input < image.q4_0_tensor(name)->Ok_0.in_dim,
    ensures
        ({
            let matrix = image.q4_0_tensor(name)->Ok_0;
            let data = image.data(name)->Ok_0;
            let place = row * matrix.in_dim + input;
            &&& matrix.backed()
            &&& matrix.code(row, input) == q4_0_code(data, place)
            &&& matrix.group(row, input) == place / 32
            &&& matrix.scales[matrix.group(row, input)] == data[18 * (place / 32)] + 256
                * data[18 * (place / 32) + 1]
        }),
{
    let (out_dim, in_dim, data) = image.block_tensor(name, GGML_TYPE_Q4_0, "Q4_0"@)->Ok_0;
    lemma_block_counts(image, name, GGML_TYPE_Q4_0, "Q4_0"@, 18);
    lemma_q4_0_code(name, out_dim, in_dim, data, row, input);
    lemma_q4_0_scale(name, out_dim, in_dim, data, row, input);
    lemma_q4_0_backed(name, out_dim, in_dim, data);
}

proof fn lemma_q4_0_backed(name: Seq<char>, out_dim: usize, in_dim: usize, data: Seq<u8>)
    requires
        in_dim % 32 == 0,
        0 <= out_dim * (in_dim / 8),
        0 <= out_dim * (in_dim / 32),
    ensures
        q4_0_matrix(name, out_dim, in_dim, data).backed(),
{
}

proof fn lemma_q4_0_scale(
    name: Seq<char>,
    out_dim: usize,
    in_dim: usize,
    data: Seq<u8>,
    row: int,
    input: int,
)
    requires
        in_dim % 32 == 0,
        0 <= row < out_dim,
        0 <= input < in_dim,
    ensures
        ({
            let matrix = q4_0_matrix(name, out_dim, in_dim, data);
            let place = row * in_dim + input;
            &&& matrix.group(row, input) == place / 32
            &&& matrix.scales[matrix.group(row, input)] == data[18 * (place / 32)] + 256
                * data[18 * (place / 32) + 1]
        }),
{
    lemma_places(in_dim as int, row, input);
    lemma_row_major(out_dim as int, in_dim as int / 32, row, input / 32);
}

/// What is loaded from Q8_0 data covers its matrix, and each number of the
/// matrix is the element of the data at its place, counted row by row.
#[verifier::rlimit(50)]
pub proof fn q8_0_reads_back(image: GgufImage, name: Seq<char>, row: int, input: int)
    requires
        image.q8_0_tensor(name) is Ok,
        0 <= row < image.q8_0_tensor(name)->Ok_0.out_dim,
        0 <= input < image.q8_0_tensor(name)->Ok_0.in_dim,
    ensures
        ({
            let matrix = image.q8_0_tensor(name)->Ok_0;
            let data = image.data(name)->Ok_0;
            let place = row * matrix.in_dim + input;
            &&& matrix.backed()
            &&& matrix.byte(row, input) == signed_byte(data[34 * (place / 32) + 2 + place % 32])
            &&& matrix.group(row, input) == place / 32
            &&& matrix.scales[matrix.group(row, input)] == data[34 * (place / 32)] + 256
                * data[34 * (place / 32) + 1]
        }),
{
    let (out_dim, in_dim, data) = image.block_tensor(name, GGML_TYPE_Q8_0, "Q8_0"@)->Ok_0;
    lemma_block_counts(image, name, GGML_TYPE_Q8_0, "Q8_0"@, 34);
    lemma_q8_0_number(name, out_dim, in_dim, data, row, input);
    lemma_q8_0_backed(name, out_dim, in_dim, data);
}

proof fn lemma_q8_0_backed(name: Seq<char>, out_dim: usize, in_dim: usize, data: Seq<u8>)
    requires
        in_dim % 32 == 0,
        0 <= out_dim * in_dim,
        0 <= out_dim * (in_dim / 32),
    ensures
        q8_0_matrix(name, out_dim, in_dim, data).backed(),
{
}

proof fn lemma_q8_0_number(
    name: Seq<char>,
    out_dim: usize,
    in_dim: usize,
    data: Seq<u8>,
    row: int,
    input: int,
)
    requires
        in_dim % 32 == 0,
        0 <= row < out_dim,
        0 <= input < in_dim,
    ensures
        ({
            let matrix = q8_0_matrix(name, out_dim, in_dim, data);
            let place = row * in_dim + input;
            &&& matrix.byte(row, input) == signed_byte(data[34 * (place / 32) + 2 + place % 32])
            &&& matrix.group(row, input) == place / 32
            &&& matrix.scales[matrix.group(row, input)] == data[34 * (place / 32)] + 256
                * data[34 * (place / 32) + 1]
        }),
{
    lemma_places(in_dim as int, row, input);
    lemma_row_major(out_dim as int, in_dim as int, row, input);
    lemma_row_major(out_dim as int, in_dim as int / 32, row, input / 32);
}

/// A place counted row by row is that of its row and its column.
proof fn lemma_row_by_row(rows: int, width: int, place: int)
    requires
        0 <= place < rows * width,
        0 <= rows,
        0 <= width,
    ensures
        0 <= place / width < rows,
        0 <= place % width < width,
        (place / width) * width + place % width == place,
{
    assert(width > 0) by (nonlinear_arith)
        requires
            0 <= place < rows * width,
            0 <= width,
    ;
    assert(0 <= place / width < rows && 0 <= place % width < width && (place / width) * width
        + place % width == place) by (nonlinear_arith)
        requires
            width > 0,
            0 <= place < rows * width,
    ;
}

/// The number of a matrix at a place counted row by row.
pub open spec fn code_at(matrix: QuantMatrix, place: int) -> nat {
    matrix.code(place / matrix.in_dim as int, place % matrix.in_dim as int)
}

/// The byte of a matrix at a place counted row by row.
pub open spec fn byte_at(matrix: QuantMatrix, place: int) -> i8 {
    matrix.byte(place / matrix.in_dim as int, place % matrix.in_dim as int)
}

/// The scale of a matrix at a place counted row by row.
pub open spec fn scale_at(matrix: QuantMatrix, place: int) -> u16 {
    matrix.scales[matrix.group(place / matrix.in_dim as int, place % matrix.in_dim as int)]
}

proof fn lemma_block_room(image: GgufImage, name: Seq<char>, block: int)
    requires
        image.q4_0_tensor(name) is Ok,
        0 <= block,
        32 * block < image.q4_0_tensor(name)->Ok_0.out_dim
            * image.q4_0_tensor(name)->Ok_0.in_dim,
    ensures
        32 * block + 32 <= image.q4_0_tensor(name)->Ok_0.out_dim
            * image.q4_0_tensor(name)->Ok_0.in_dim,
        18 * block + 18 <= image.data(name)->Ok_0.len(),
{
    lemma_block_counts(image, name, GGML_TYPE_Q4_0, "Q4_0"@, 18);
}

#[verifier::rlimit(50)]
proof fn lemma_q4_0_place(image: GgufImage, name: Seq<char>, place: int)
    requires
        image.q4_0_tensor(name) is Ok,
        0 <= place < image.q4_0_tensor(name)->Ok_0.out_dim
            * image.q4_0_tensor(name)->Ok_0.in_dim,
    ensures
        ({
            let matrix = image.q4_0_tensor(name)->Ok_0;
            let data = image.data(name)->Ok_0;
            &&& code_at(matrix, place) == q4_0_code(data, place)
            &&& scale_at(matrix, place) == data[18 * (place / 32)] + 256 * data[18 * (place / 32)
                + 1]
        }),
{
    let matrix = image.q4_0_tensor(name)->Ok_0;
    let width = matrix.in_dim as int;
    lemma_row_by_row(matrix.out_dim as int, width, place);
    q4_0_reads_back(image, name, place / width, place % width);
}

/// The bytes of a Q4_0 tensor can be written again from the matrix that was
/// loaded of them. A block holds the scale of 32 numbers in its first two bytes,
/// the lower one first; each of the sixteen behind them holds a number of the
/// first half of the block in its low half and the one sixteen places further
/// in its high half.
#[verifier::rlimit(50)]
pub proof fn q4_0_blocks_are_written_again(image: GgufImage, name: Seq<char>, block: int, byte: int)
    requires
        image.q4_0_tensor(name) is Ok,
        0 <= block,
        32 * block < image.q4_0_tensor(name)->Ok_0.out_dim
            * image.q4_0_tensor(name)->Ok_0.in_dim,
        0 <= byte < 16,
    ensures
        ({
            let matrix = image.q4_0_tensor(name)->Ok_0;
            let data = image.data(name)->Ok_0;
            let low = 32 * block + byte;
            let high = 32 * block + 16 + byte;
            &&& 18 * block + 18 <= data.len()
            &&& data[18 * block + 2 + byte] == code_at(matrix, low) + 16 * code_at(matrix, high)
            &&& code_at(matrix, low) < 16
            &&& code_at(matrix, high) < 16
            &&& scale_at(matrix, low) == data[18 * block] + 256 * data[18 * block + 1]
            &&& scale_at(matrix, high) == data[18 * block] + 256 * data[18 * block + 1]
            &&& matrix.encoding == QuantEncoding::AffineQ4
            &&& matrix.scale_format == ScaleFormat::Half
        }),
{
    let matrix = image.q4_0_tensor(name)->Ok_0;
    let data = image.data(name)->Ok_0;
    let low = 32 * block + byte;
    let high = 32 * block + 16 + byte;
    lemma_block_room(image, name, block);
    lemma_q4_0_place(image, name, low);
    lemma_q4_0_place(image, name, high);
    assert(low / 32 == block && low % 32 == byte && low % 16 == byte);
    assert(high / 32 == block && high % 32 == 16 + byte && high % 16 == byte);
    let held = data[18 * block + 2 + byte] as nat;
    assert(code_at(matrix, low) == held % 16);
    assert(code_at(matrix, high) == held / 16);
}

/// The bytes of a Q8_0 tensor can be written again from the matrix that was
/// loaded of them. A block holds the scale of 32 numbers in its first two bytes,
/// the lower one first, and then the numbers, each as a byte in two's complement.
#[verifier::rlimit(50)]
pub proof fn q8_0_blocks_are_written_again(image: GgufImage, name: Seq<char>, block: int, byte: int)
    requires
        image.q8_0_tensor(name) is Ok,
        0 <= block,
        32 * block < image.q8_0_tensor(name)->Ok_0.out_dim
            * image.q8_0_tensor(name)->Ok_0.in_dim,
        0 <= byte < 32,
    ensures
        ({
            let matrix = image.q8_0_tensor(name)->Ok_0;
            let data = image.data(name)->Ok_0;
            let place = 32 * block + byte;
            &&& 34 * block + 34 <= data.len()
            &&& data[34 * block + 2 + byte] == (256 + byte_at(matrix, place)) % 256
            &&& scale_at(matrix, place) == data[34 * block] + 256 * data[34 * block + 1]
            &&& matrix.encoding == QuantEncoding::GgufQ8_0
            &&& matrix.scale_format == ScaleFormat::Half
        }),
{
    let data = image.data(name)->Ok_0;
    let place = 32 * block + byte;
    lemma_block_counts(image, name, GGML_TYPE_Q8_0, "Q8_0"@, 34);
    lemma_q8_0_place(image, name, place);
    assert(place / 32 == block && place % 32 == byte);
    lemma_signed_byte(data[34 * block + 2 + byte]);
}

proof fn lemma_signed_byte(byte: u8)
    ensures
        byte == (256 + signed_byte(byte)) % 256,
{
}

#[verifier::rlimit(50)]
proof fn lemma_q8_0_place(image: GgufImage, name: Seq<char>, place: int)
    requires
        image.q8_0_tensor(name) is Ok,
        0 <= place < image.q8_0_tensor(name)->Ok_0.out_dim
            * image.q8_0_tensor(name)->Ok_0.in_dim,
    ensures
        ({
            let matrix = image.q8_0_tensor(name)->Ok_0;
            let data = image.data(name)->Ok_0;
            &&& byte_at(matrix, place) == signed_byte(data[34 * (place / 32) + 2 + place % 32])
            &&& scale_at(matrix, place) == data[34 * (place / 32)] + 256 * data[34 * (place / 32)
                + 1]
        }),
{
    let matrix = image.q8_0_tensor(name)->Ok_0;
    let width = matrix.in_dim as int;
    lemma_row_by_row(matrix.out_dim as int, width, place);
    q8_0_reads_back(image, name, place / width, place % width);
}

/// A matrix has as many columns as the first dimension of its tensor and as
/// many rows as the second, and a vector of floats has as many words as the
/// data has groups of four bytes, the lowest byte of each first.
pub proof fn loaded_shapes_are_stored_shapes(image: GgufImage, name: Seq<char>, index: int)
    ensures
        image.q4_0_tensor(name) is Ok ==> {
            let matrix = image.q4_0_tensor(name)->Ok_0;
            let info = image.tensors[name];
            info.ggml_type == 2 && info.dims == seq![matrix.in_dim, matrix.out_dim]
        },
        image.q8_0_tensor(name) is Ok ==> {
            let matrix = image.q8_0_tensor(name)->Ok_0;
            let info = image.tensors[name];
            info.ggml_type == 8 && info.dims == seq![matrix.in_dim, matrix.out_dim]
        },
        image.f32_tensor(name) is Ok ==> {
            let words = image.f32_tensor(name)->Ok_0;
            let data = image.data(name)->Ok_0;
            &&& image.tensors[name].ggml_type == 0
            &&& words.len() == data.len() / 4
            &&& 0 <= index < words.len() ==> words[index] == data[4 * index] + 256 * data[4 * index
                + 1] + 65536 * data[4 * index + 2] + 16777216 * data[4 * index + 3]
        },
{
    if image.q4_0_tensor(name) is Ok {
        let matrix = image.q4_0_tensor(name)->Ok_0;
        assert(image.tensors[name].dims =~= seq![matrix.in_dim, matrix.out_dim]);
    }
    if image.q8_0_tensor(name) is Ok {
        let matrix = image.q8_0_tensor(name)->Ok_0;
        assert(image.tensors[name].dims =~= seq![matrix.in_dim, matrix.out_dim]);
    }
    if image.f32_tensor(name) is Ok {
        let data = image.data(name)->Ok_0;
        if 0 <= index < data.len() / 4 {
            lemma_little_endian_4(data.subrange(4 * index, 4 * index + 4));
        }
    }
}

fn q4_0_element(bytes: &[u8], block: usize, local: usize) -> (code: u32)
    requires
        18 * block + 18 <= bytes@.len(),
        local < 32,
    ensures
        code == q4_0_code(bytes@, 32 * block + local),
        code < 16,
{
    assert(bytes@.len() == bytes.len());
    let byte: u8 = bytes[18 * block + 2 + local % 16];
    if local < 16 {
        (byte % 16) as u32
    } else {
        (byte / 16) as u32
    }
}

/// One of the four words of a block.
fn q4_0_word(bytes: &[u8], block: usize, part: usize) -> (word: u32)
    requires
        18 * block + 18 <= bytes@.len(),
        part < 4,
    ensures
        word == packed(q4_0_codes(bytes@, 4 * block + part)),
{
    let ghost codes = q4_0_codes(bytes@, 4 * block + part);
    let mut word: u64 = 0;
    let mut index: usize = 8;
    assert(codes.skip(8) =~= Seq::<u32>::empty());
    assert(four_bit(codes));
    while index > 0
        invariant
            18 * block + 18 <= bytes@.len(),
            part < 4,
            index <= 8,
            codes == q4_0_codes(bytes@, 4 * block + part),
            four_bit(codes),
            word == packed(codes.skip(index as int)),
            word < pow16((8 - index) as nat) <= 0x1_0000_0000,
        decreases index,
    {
        index = index - 1;
        proof {
            let tail = codes.skip(index as int);
            assert(tail.drop_first() =~= codes.skip(index + 1));
            assert(tail[0] == codes[index as int]);
            lemma_packed_bound(tail);
            reveal_with_fuel(pow16, 9);
        }
        word = 16 * word + q4_0_element(bytes, block, 8 * part + index) as u64;
    }
    assert(codes.skip(0) =~= codes);
    word as u32
}

fn half_word_at(bytes: &[u8], at: usize) -> (bits: u16)
    requires
        at + 1 < bytes@.len(),
    ensures
        bits == bytes@[at as int] + 256 * bytes@[at + 1],
{
    bytes[at] as u16 + 256 * (bytes[at + 1] as u16)
}

impl GgufFile {
    /// A tensor of 32-bit floats, as bit patterns.
    pub fn load_f32(&self, name: &str) -> (result: Result<Vec<u32>, TinyAgentError>)
        requires
            self.wf(),
        ensures
            config_outcome(result, self@.f32_tensor(name@)),
    {
        let info = match self.info(name) {
            Ok(info) => info,
            Err(error) => return Err(error),
        };
        if info.ggml_type != GGML_TYPE_F32 {
            return Err(TinyAgentError::Configuration(cat2(name, " must have GGUF type F32")));
        }
        match self.tensor_bytes(name) {
            Ok(bytes) => Ok(words_from(bytes)),
            Err(error) => Err(error),
        }
    }

    fn load_blocks(&self, name: &str, ggml_type: i32, kind: &str) -> (result: Result<
        (usize, usize, &[u8]),
        TinyAgentError,
    >)
        requires
            self.wf(),
        ensures
            config_outcome(result, self@.block_tensor(name@, ggml_type, kind@)),
    {
        let info = match self.info(name) {
            Ok(info) => info,
            Err(error) => return Err(error),
        };
        if info.ggml_type != ggml_type || info.dims.len() != 2 {
            return Err(
                TinyAgentError::Configuration(
                    cat4(name, " must be a rank-2 GGUF ", kind, " tensor"),
                ),
            );
        }
        let in_dim: usize = info.dims[0];
        let out_dim: usize = info.dims[1];
        if in_dim % 32 != 0 {
            return Err(
                TinyAgentError::Configuration(
                    cat4(
                        name,
                        " input dimension ",
                        decimal_usize(in_dim).as_str(),
                        " is not divisible by 32",
                    ),
                ),
            );
        }
        match self.tensor_bytes(name) {
            Ok(bytes) => Ok((out_dim, in_dim, bytes)),
            Err(error) => Err(error),
        }
    }

    pub fn load_q4_0(&self, name: &str) -> (result: Result<QuantTensor, TinyAgentError>)
        requires
            self.wf(),
        ensures
            config_outcome(result, self@.q4_0_tensor(name@)),
    {
        let (out_dim, in_dim, bytes) = match self.load_blocks(name, GGML_TYPE_Q4_0, "Q4_0") {
            Ok(found) => found,
            Err(error) => return Err(error),
        };
        let ghost matrix = q4_0_matrix(name@, out_dim, in_dim, bytes@);
        proof {
            lemma_block_counts(self@, name@, GGML_TYPE_Q4_0, "Q4_0"@, 18);
        }
        let blocks: usize = bytes.len() / 18;
        let mut weight: Vec<u32> = Vec::new();
        let mut scales: Vec<u16> = Vec::new();
        let mut block: usize = 0;
        while block < blocks
            invariant
                block <= blocks,
                bytes.len() == 18 * blocks,
                bytes@.len() == bytes.len(),
                matrix == q4_0_matrix(name@, out_dim, in_dim, bytes@),
                matrix.weight.len() == 4 * blocks,
                matrix.scales.len() == blocks,
                weight@ == matrix.weight.take(4 * block as int),
                scales@ == matrix.scales.take(block as int),
            decreases blocks - block,
        {
            scales.push(half_word_at(bytes, 18 * block));
            weight.push(q4_0_word(bytes, block, 0));
            weight.push(q4_0_word(bytes, block, 1));
            weight.push(q4_0_word(bytes, block, 2));
            weight.push(q4_0_word(bytes, block, 3));
            block = block + 1;
            assert(weight@ =~= matrix.weight.take(4 * block as int));
            assert(scales@ =~= matrix.scales.take(block as int));
        }
        assert(weight@ =~= matrix.weight);
        assert(scales@ =~= matrix.scales);
        let tensor = QuantTensor {
            name: name.to_owned(),
            encoding: QuantEncoding::AffineQ4,
            out_dim,
            in_dim,
            packed_per_row: in_dim / 8,
            groups_per_row: in_dim / 32,
            group_size: 32,
            weight,
            q8_values: Vec::new(),
            scale_format: ScaleFormat::Half,
            scales,
            biases: Vec::new(),
        };
        assert(tensor@ =~= matrix);
        Ok(tensor)
    }

    pub fn load_q8_0(&self, name: &str) -> (result: Result<QuantTensor, TinyAgentError>)
        requires
            self.wf(),
        ensures
            config_outcome(result, self@.q8_0_tensor(name@)),
    {
        let (out_dim, in_dim, bytes) = match self.load_blocks(name, GGML_TYPE_Q8_0, "Q8_0") {
            Ok(found) => found,
            Err(error) => return Err(error),
        };
        let ghost matrix = q8_0_matrix(name@, out_dim, in_dim, bytes@);
        proof {
            lemma_block_counts(self@, name@, GGML_TYPE_Q8_0, "Q8_0"@, 34);
        }
        let blocks: usize = bytes.len() / 34;
        let mut q8_values: Vec<i8> = Vec::new();
        let mut scales: Vec<u16> = Vec::new();
        let mut block: usize = 0;
        while block < blocks
            invariant
                block <= blocks,
                bytes.len() == 34 * blocks,
                bytes@.len() == bytes.len(),
                matrix == q8_0_matrix(name@, out_dim, in_dim, bytes@),
                matrix.q8_values.len() == 32 * blocks,
                matrix.scales.len() == blocks,
                q8_values@ == matrix.q8_values.take(32 * block as int),
                scales@ == matrix.scales.take(block as int),
            decreases blocks - block,
        {
            scales.push(half_word_at(bytes, 34 * block));
            let mut local: usize = 0;
            while local < 32
                invariant
                    local <= 32,
                    block < blocks,
                    bytes.len() == 34 * blocks,
                bytes@.len() == bytes.len(),
                    matrix == q8_0_matrix(name@, out_dim, in_dim, bytes@),
                    matrix.q8_values.len() == 32 * blocks,
                    q8_values@ == matrix.q8_values.take(32 * block + local),
                decreases 32 - local,
            {
                let byte: u8 = bytes[34 * block + 2 + local];
                let value: i8 = if byte < 128 {
                    byte as i8
                } else {
                    (byte as i16 - 256) as i8
                };
                proof {
                    let place = 32 * block + local;
                    assert(place / 32 == block && place % 32 == local);
                    assert(matrix.q8_values[place] == value);
                }
                q8_values.push(value);
                local = local + 1;
                assert(q8_values@ =~= matrix.q8_values.take(32 * block + local));
            }
            block = block + 1;
            assert(scales@ =~= matrix.scales.take(block as int));
        }
        assert(q8_values@ =~= matrix.q8_values);
        assert(scales@ =~= matrix.scales);
        let tensor = QuantTensor {
            name: name.to_owned(),
            encoding: QuantEncoding::GgufQ8_0,
            out_dim,
            in_dim,
            packed_per_row: 0,
            groups_per_row: in_dim / 32,
            group_size: 32,
            weight: Vec::new(),
            q8_values,
            scale_format: ScaleFormat::Half,
            scales,
            biases: Vec::new(),
        };
        assert(tensor@ =~= matrix);
        Ok(tensor)
    }
}

/// A tensor is loaded just where the file has one of that name and of the type
/// that is asked for, its data lie within the file, and, if it is a matrix of
/// blocks, it has two dimensions, the first of them made of whole blocks.
pub proof fn tensors_load_where_they_are_stored(image: GgufImage, name: Seq<char>)
    ensures
        image.f32_tensor(name) is Ok <==> image.tensors.dom().contains(name)
            && image.tensors[name].ggml_type == 0 && image.data(name) is Ok,
        image.q4_0_tensor(name) is Ok <==> image.tensors.dom().contains(name)
            && image.tensors[name].ggml_type == 2 && image.tensors[name].dims.len() == 2
            && image.tensors[name].dims[0] % 32 == 0 && image.data(name) is Ok,
        image.q8_0_tensor(name) is Ok <==> image.tensors.dom().contains(name)
            && image.tensors[name].ggml_type == 8 && image.tensors[name].dims.len() == 2
            && image.tensors[name].dims[0] % 32 == 0 && image.data(name) is Ok,
{
}

} // verus!
