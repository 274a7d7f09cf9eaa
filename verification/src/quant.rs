//! Quantised matrices: rows of small integers with a scale per group.

use crate::error::{config_outcome, TinyAgentError};
use crate::text::{cat5, decimal, decimal_usize};
use vstd::prelude::*;

verus! {

/// How the numbers of a matrix are kept.
#[derive(Debug, Clone, Copy, PartialEq, Eq, Structural)]
pub enum QuantEncoding {
    /// Four bits per number, eight numbers per word.
    AffineQ4,
    /// One signed byte per number.
    GgufQ8_0,
}

/// The format of the stored scales, and where the biases come from.
#[derive(Debug, Clone, Copy, PartialEq, Eq, Structural)]
pub enum ScaleFormat {
    /// IEEE half precision; a group's bias is minus eight times its scale.
    Half,
    /// The upper half of a 32-bit float; biases are stored in the same way.
    Brain,
}

/// A quantised matrix of `out_dim` rows and `in_dim` columns.
#[derive(Debug)]
pub struct QuantTensor {
    pub name: String,
    pub encoding: QuantEncoding,
    pub out_dim: usize,
    pub in_dim: usize,
    pub packed_per_row: usize,
    pub groups_per_row: usize,
    pub group_size: usize,
    pub weight: Vec<u32>,
    pub q8_values: Vec<i8>,
    pub scale_format: ScaleFormat,
    pub scales: Vec<u16>,
    pub biases: Vec<u16>,
}

/// The mathematical value of a `QuantTensor`.
#[verifier::ext_equal]
pub struct QuantMatrix {
    pub name: Seq<char>,
    pub encoding: QuantEncoding,
    pub out_dim: usize,
    pub in_dim: usize,
    pub packed_per_row: usize,
    pub groups_per_row: usize,
    pub group_size: usize,
    pub weight: Seq<u32>,
    pub q8_values: Seq<i8>,
    pub scale_format: ScaleFormat,
    pub scales: Seq<u16>,
    pub biases: Seq<u16>,
}

impl View for QuantTensor {
    type V = QuantMatrix;

    open spec fn view(&self) -> QuantMatrix {
        QuantMatrix {
            name: self.name@,
            encoding: self.encoding,
            out_dim: self.out_dim,
            in_dim: self.in_dim,
            packed_per_row: self.packed_per_row,
            groups_per_row: self.groups_per_row,
            group_size: self.group_size,
            weight: self.weight@,
            q8_values: self.q8_values@,
            scale_format: self.scale_format,
            scales: self.scales@,
            biases: self.biases@,
        }
    }
}

/// Powers of sixteen.
pub open spec fn pow16(exponent: nat) -> nat
    decreases exponent,
{
    if exponent == 0 {
        1
    } else {
        16 * pow16((exponent - 1) as nat)
    }
}

/// The number whose digits to base sixteen are `codes`, lowest first.
pub open spec fn packed(codes: Seq<u32>) -> nat
    decreases codes.len(),
{
    if codes.len() == 0 {
        0
    } else {
        codes[0] as nat + 16 * packed(codes.drop_first())
    }
}

/// Digit `index` of a number to base sixteen.
pub open spec fn nibble(word: nat, index: nat) -> nat
    decreases index,
{
    if index == 0 {
        word % 16
    } else {
        nibble(word / 16, (index - 1) as nat)
    }
}

/// All of `codes` are digits to base sixteen.
pub open spec fn four_bit(codes: Seq<u32>) -> bool {
    forall|i: int| 0 <= i < codes.len() ==> #[trigger] codes[i] < 16
}

pub proof fn lemma_packed_bound(codes: Seq<u32>)
    requires
        four_bit(codes),
    ensures
        packed(codes) < pow16(codes.len()),
    decreases codes.len(),
{
    if codes.len() > 0 {
        let rest = codes.drop_first();
        assert forall|i: int| 0 <= i < rest.len() implies #[trigger] rest[i] < 16 by {
            assert(rest[i] == codes[i + 1]);
        }
        lemma_packed_bound(rest);
    }
}

/// Packing loses nothing: each digit can be read back.
pub proof fn packed_digit_reads_back(codes: Seq<u32>, index: nat)
    requires
        four_bit(codes),
        index < codes.len(),
    ensures
        nibble(packed(codes), index) == codes[index as int],
    decreases codes.len(),
{
    let rest = codes.drop_first();
    assert(codes[0] < 16);
    assert(packed(codes) % 16 == codes[0]);
    assert(packed(codes) / 16 == packed(rest));
    if index > 0 {
        assert forall|i: int| 0 <= i < rest.len() implies #[trigger] rest[i] < 16 by {
            assert(rest[i] == codes[i + 1]);
        }
        packed_digit_reads_back(rest, (index - 1) as nat);
    }
}

/// Digit `index` of a word.
pub fn word_nibble(word: u32, index: usize) -> (digit: u32)
    requires
        index < 8,
    ensures
        digit == nibble(word as nat, index as nat),
{
    proof {
        reveal_with_fuel(nibble, 8);
    }
    if index == 0 {
        word % 16
    } else if index == 1 {
        word / 16 % 16
    } else if index == 2 {
        word / 256 % 16
    } else if index == 3 {
        word / 4096 % 16
    } else if index == 4 {
        word / 65536 % 16
    } else if index == 5 {
        word / 1048576 % 16
    } else if index == 6 {
        word / 16777216 % 16
    } else {
        word / 268435456 % 16
    }
}

/// The low four bits of each of eight values.
pub open spec fn low_nibbles(values: Seq<u32>) -> Seq<u32> {
    Seq::new(values.len(), |i: int| (values[i] % 16) as u32)
}

/// Packs the low four bits of eight values, the first one lowest.
pub fn pack_q4(values: &[u32; 8]) -> (word: u32)
    ensures
        word == packed(low_nibbles(values@)),
{
    let ghost codes = low_nibbles(values@);
    let mut word: u64 = 0;
    let mut index: usize = 8;
    assert(codes.skip(8) =~= Seq::<u32>::empty());
    while index > 0
        invariant
            index <= 8,
            codes == low_nibbles(values@),
            codes.len() == 8,
            word == packed(codes.skip(index as int)),
            word < pow16((8 - index) as nat) <= 0x1_0000_0000,
        decreases index,
    {
        index = index - 1;
        proof {
            let tail = codes.skip(index as int);
            assert(tail.drop_first() =~= codes.skip(index + 1));
            lemma_packed_bound(tail);
            reveal_with_fuel(pow16, 9);
        }
        word = 16 * word + (values[index] % 16) as u64;
    }
    assert(codes.skip(0) =~= codes);
    word as u32
}

/// The texts that refuse an input or a bias of the wrong length.
pub open spec fn matvec_refusal(
    name: Seq<char>,
    in_dim: usize,
    out_dim: usize,
    input_len: usize,
    bias_len: Option<usize>,
) -> Option<Seq<char>> {
    if input_len != in_dim {
        Some(
            name + " input length "@ + decimal(input_len as nat) + " does not match "@ + decimal(
                in_dim as nat,
            ),
        )
    } else if bias_len is Some && bias_len->0 != out_dim {
        Some(bias_mismatch(name, bias_len->0, out_dim))
    } else {
        None
    }
}

pub open spec fn bias_mismatch(name: Seq<char>, bias_len: usize, out_dim: usize) -> Seq<char> {
    name + " linear bias length "@ + decimal(bias_len as nat) + " does not match "@ + decimal(
        out_dim as nat,
    )
}

/// A check that either passes or refuses with a text.
pub open spec fn checked(refusal: Option<Seq<char>>) -> Result<(), Seq<char>> {
    match refusal {
        Some(text) => Err(text),
        None => Ok(()),
    }
}

pub fn bias_mismatch_error(name: &str, bias_len: usize, out_dim: usize) -> (error: TinyAgentError)
    ensures
        error@ == crate::error::Fault::Configuration(bias_mismatch(name@, bias_len, out_dim)),
{
    TinyAgentError::Configuration(
        cat5(
            name,
            " linear bias length ",
            decimal_usize(bias_len).as_str(),
            " does not match ",
            decimal_usize(out_dim).as_str(),
        ),
    )
}

impl QuantMatrix {
    /// The stored numbers cover the whole matrix.
    pub open spec fn backed(self) -> bool {
        &&& self.group_size > 0
        &&& self.in_dim <= self.groups_per_row * self.group_size
        &&& self.scales.len() == self.out_dim * self.groups_per_row
        &&& match self.encoding {
            QuantEncoding::AffineQ4 => {
                &&& self.in_dim <= 8 * self.packed_per_row
                &&& self.weight.len() == self.out_dim * self.packed_per_row
                &&& self.scale_format == ScaleFormat::Brain ==> self.biases.len()
                    == self.out_dim * self.groups_per_row
            },
            QuantEncoding::GgufQ8_0 => self.q8_values.len() == self.out_dim * self.in_dim,
        }
    }

    /// The four-bit number at a place of the matrix.
    pub open spec fn code(self, row: int, input: int) -> nat {
        nibble(
            self.weight[row * self.packed_per_row + input / 8] as nat,
            (input % 8) as nat,
        )
    }

    /// The byte at a place of the matrix.
    pub open spec fn byte(self, row: int, input: int) -> i8 {
        self.q8_values[row * self.in_dim + input]
    }

    /// The group that a place of the matrix belongs to.
    pub open spec fn group(self, row: int, input: int) -> int {
        row * self.groups_per_row + input / self.group_size as int
    }
}

/// A word of a matrix holds eight neighbouring numbers of a row, the first of
/// them lowest.
#[verifier::rlimit(50)]
pub proof fn words_hold_eight_codes(matrix: QuantMatrix, row: int, word: int)
    requires
        0 <= word,
    ensures
        ({
            let code = |place: int| matrix.code(row, 8 * word + place);
            &&& matrix.weight[row * matrix.packed_per_row + word] == code(0) + 0x10 * code(1)
                + 0x100 * code(2) + 0x1000 * code(3) + 0x1_0000 * code(4) + 0x10_0000 * code(5)
                + 0x100_0000 * code(6) + 0x1000_0000 * code(7)
            &&& forall|place: int| 0 <= place < 8 ==> #[trigger] code(place) < 16
        }),
{
    reveal_with_fuel(nibble, 8);
    let bits = matrix.weight[row * matrix.packed_per_row + word] as nat;
    assert forall|place: int| 0 <= place < 8 implies #[trigger] matrix.code(
        row,
        8 * word + place,
    ) == nibble(bits, place as nat) by {
        assert((8 * word + place) / 8 == word && (8 * word + place) % 8 == place);
    }
    assert(matrix.code(row, 8 * word + 0) == bits % 16);
    assert(matrix.code(row, 8 * word + 1) == bits / 16 % 16);
    assert(matrix.code(row, 8 * word + 2) == bits / 16 / 16 % 16);
    assert(matrix.code(row, 8 * word + 3) == bits / 16 / 16 / 16 % 16);
    assert(matrix.code(row, 8 * word + 4) == bits / 16 / 16 / 16 / 16 % 16);
    assert(matrix.code(row, 8 * word + 5) == bits / 16 / 16 / 16 / 16 / 16 % 16);
    assert(matrix.code(row, 8 * word + 6) == bits / 16 / 16 / 16 / 16 / 16 / 16 % 16);
    assert(matrix.code(row, 8 * word + 7) == bits / 16 / 16 / 16 / 16 / 16 / 16 / 16 % 16);
    assert(bits < 0x1_0000_0000);
}

/// Neighbours of a row share a scale: those of the same run of `group_size`
/// columns and no others, and no two rows share one.
pub proof fn groups_are_runs_of_a_row(matrix: QuantMatrix, row: int, input: int, other_row: int, other: int)
    requires
        matrix.group_size > 0,
        matrix.in_dim <= matrix.groups_per_row * matrix.group_size,
        0 <= row < matrix.out_dim,
        0 <= other_row < matrix.out_dim,
        0 <= input < matrix.in_dim,
        0 <= other < matrix.in_dim,
    ensures
        0 <= matrix.group(row, input) < matrix.out_dim * matrix.groups_per_row,
        matrix.group(row, input) == matrix.group(other_row, other) <==> row == other_row && input
            / matrix.group_size as int == other / matrix.group_size as int,
{
    let size = matrix.group_size as int;
    let groups = matrix.groups_per_row as int;
    let left = input / size;
    let right = other / size;
    assert(0 <= left < groups && 0 <= right < groups) by (nonlinear_arith)
        requires
            left == input / size,
            right == other / size,
            size > 0,
            0 <= input < groups * size,
            0 <= other < groups * size,
    ;
    lemma_row_major(matrix.out_dim as int, groups, row, left);
    assert(row * groups + left == other_row * groups + right ==> row == other_row) by (
    nonlinear_arith)
        requires
            0 <= left < groups,
            0 <= right < groups,
    ;
}

/// An element of a row lies within the rows before it and itself.
pub proof fn lemma_row_major(rows: int, width: int, row: int, column: int)
    requires
        0 <= row < rows,
        0 <= column < width,
    ensures
        0 <= row * width,
        row * width + column < rows * width,
        row * width <= rows * width,
{
    assert(row * width + width <= rows * width && 0 <= row * width) by (nonlinear_arith)
        requires
            0 <= row < rows,
            0 <= width,
    ;
}

impl QuantTensor {
    pub fn validate_matvec_input(&self, input_len: usize, bias_len: Option<usize>) -> (result: Result<
        (),
        TinyAgentError,
    >)
        ensures
            config_outcome(
                result,
                checked(
                    matvec_refusal(self.name@, self.in_dim, self.out_dim, input_len, bias_len),
                ),
            ),
    {
        if input_len != self.in_dim {
            return Err(
                TinyAgentError::Configuration(
                    cat5(
                        self.name.as_str(),
                        " input length ",
                        decimal_usize(input_len).as_str(),
                        " does not match ",
                        decimal_usize(self.in_dim).as_str(),
                    ),
                ),
            );
        }
        if let Some(len) = bias_len {
            if len != self.out_dim {
                return Err(bias_mismatch_error(self.name.as_str(), len, self.out_dim));
            }
        }
        Ok(())
    }

    /// Whether the stored numbers cover the whole matrix.
    pub fn is_backed(&self) -> (yes: bool)
        ensures
            yes == self@.backed(),
    {
        let out_dim: u128 = self.out_dim as u128;
        proof {
            lemma_product_fits(self.groups_per_row, self.group_size);
            lemma_product_fits(self.out_dim, self.groups_per_row);
            lemma_product_fits(self.out_dim, self.packed_per_row);
            lemma_product_fits(self.out_dim, self.in_dim);
        }
        let groups: u128 = out_dim * (self.groups_per_row as u128);
        if self.group_size == 0 {
            return false;
        }
        if self.in_dim as u128 > (self.groups_per_row as u128) * (self.group_size as u128) {
            return false;
        }
        if self.scales.len() as u128 != groups {
            return false;
        }
        match self.encoding {
            QuantEncoding::AffineQ4 => {
                self.in_dim as u128 <= 8 * (self.packed_per_row as u128)
                    && self.weight.len() as u128 == out_dim * (self.packed_per_row as u128)
                    && (self.scale_format != ScaleFormat::Brain || self.biases.len() as u128
                    == groups)
            },
            QuantEncoding::GgufQ8_0 => {
                self.q8_values.len() as u128 == out_dim * (self.in_dim as u128)
            },
        }
    }

    /// The text that refuses a row that the matrix does not have.
    pub fn check_row(&self, row: usize) -> (result: Result<(), TinyAgentError>)
        ensures
            config_outcome(
                result,
                if row >= self.out_dim {
                    Err(
                        self.name@ + " row "@ + decimal(row as nat) + " out of range "@ + decimal(
                            self.out_dim as nat,
                        ),
                    )
                } else {
                    Ok(())
                },
            ),
    {
        if row >= self.out_dim {
            return Err(
                TinyAgentError::Configuration(
                    cat5(
                        self.name.as_str(),
                        " row ",
                        decimal_usize(row).as_str(),
                        " out of range ",
                        decimal_usize(self.out_dim).as_str(),
                    ),
                ),
            );
        }
        Ok(())
    }

    /// The four-bit number at a place of the matrix.
    pub fn code(&self, row: usize, input: usize) -> (code: u32)
        requires
            self@.backed(),
            self.encoding == QuantEncoding::AffineQ4,
            row < self.out_dim,
            input < self.in_dim,
        ensures
            code == self@.code(row as int, input as int),
            code < 16,
    {
        proof {
            assert(self.weight@.len() == self.weight.len());
            lemma_row_major(
                self.out_dim as int,
                self.packed_per_row as int,
                row as int,
                input as int / 8,
            );
            lemma_nibble_bound(
                self.weight@[row * self.packed_per_row + input / 8] as nat,
                (input % 8) as nat,
            );
        }
        word_nibble(self.weight[row * self.packed_per_row + input / 8], input % 8)
    }

    /// The byte at a place of the matrix.
    pub fn byte(&self, row: usize, input: usize) -> (byte: i8)
        requires
            self@.backed(),
            self.encoding == QuantEncoding::GgufQ8_0,
            row < self.out_dim,
            input < self.in_dim,
        ensures
            byte == self@.byte(row as int, input as int),
    {
        proof {
            assert(self.q8_values@.len() == self.q8_values.len());
            lemma_row_major(self.out_dim as int, self.in_dim as int, row as int, input as int);
        }
        self.q8_values[row * self.in_dim + input]
    }

    /// The group that a place of the matrix belongs to, which has a scale and,
    /// where biases are stored, a bias.
    pub fn group(&self, row: usize, input: usize) -> (group: usize)
        requires
            self@.backed(),
            row < self.out_dim,
            input < self.in_dim,
        ensures
            group == self@.group(row as int, input as int),
            group < self.scales@.len(),
            self.encoding == QuantEncoding::AffineQ4 && self.scale_format == ScaleFormat::Brain
                ==> group < self.biases@.len(),
    {
        proof {
            let column = input as int / self.group_size as int;
            assert(column < self.groups_per_row) by (nonlinear_arith)
                requires
                    column == input as int / self.group_size as int,
                    0 <= input < self.groups_per_row * self.group_size,
                    self.group_size > 0,
            ;
            assert(0 <= column) by (nonlinear_arith)
                requires
                    column == input as int / self.group_size as int,
                    self.group_size > 0,
            ;
            assert(self.scales@.len() == self.scales.len());
            lemma_row_major(
                self.out_dim as int,
                self.groups_per_row as int,
                row as int,
                column,
            );
        }
        row * self.groups_per_row + input / self.group_size
    }

    /// The stored bias of a group, as the bit pattern of a 32-bit float.
    pub fn bias(&self, group: usize) -> (bits: u32)
        requires
            group < self.biases@.len(),
        ensures
            bits == 65536 * self.biases@[group as int],
    {
        bf16_to_f32(self.biases[group])
    }
}

proof fn lemma_nibble_bound(word: nat, index: nat)
    ensures
        nibble(word, index) < 16,
    decreases index,
{
    if index > 0 {
        lemma_nibble_bound(word / 16, (index - 1) as nat);
    }
}

proof fn lemma_product_fits(a: usize, b: usize)
    ensures
        a * b <= u128::MAX,
{
    assert(a * b <= 0xffff_ffff_ffff_ffff * 0xffff_ffff_ffff_ffff) by (nonlinear_arith)
        requires
            0 <= a <= 0xffff_ffff_ffff_ffff,
            0 <= b <= 0xffff_ffff_ffff_ffff,
    ;
}

/// The bit pattern of a brain float as that of a 32-bit float.
pub fn bf16_to_f32(value: u16) -> (bits: u32)
    ensures
        bits == 65536 * value,
{
    65536 * (value as u32)
}

/// Eight values are packed into one word by their low four bits, the first of
/// them lowest.
#[verifier::rlimit(50)]
pub proof fn eight_values_make_a_word(values: Seq<u32>)
    requires
        values.len() == 8,
    ensures
        packed(low_nibbles(values)) == values[0] % 16 + 0x10 * (values[1] % 16) + 0x100 * (values[2]
            % 16) + 0x1000 * (values[3] % 16) + 0x1_0000 * (values[4] % 16) + 0x10_0000 * (values[5]
            % 16) + 0x100_0000 * (values[6] % 16) + 0x1000_0000 * (values[7] % 16),
{
    reveal_with_fuel(packed, 9);
    let codes = low_nibbles(values);
    let c1 = codes.drop_first();
    let c2 = c1.drop_first();
    let c3 = c2.drop_first();
    let c4 = c3.drop_first();
    let c5 = c4.drop_first();
    let c6 = c5.drop_first();
    let c7 = c6.drop_first();
    assert(c7.drop_first() =~= Seq::<u32>::empty());
    assert(packed(c7) == values[7] % 16);
    assert(packed(c6) == values[6] % 16 + 16 * packed(c7));
    assert(packed(c5) == values[5] % 16 + 16 * packed(c6));
    assert(packed(c4) == values[4] % 16 + 16 * packed(c5));
    assert(packed(c3) == values[3] % 16 + 16 * packed(c4));
    assert(packed(c2) == values[2] % 16 + 16 * packed(c3));
    assert(packed(c1) == values[1] % 16 + 16 * packed(c2));
}

} // verus!
