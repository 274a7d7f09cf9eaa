//! How a GGUF file is laid out, told from the side of who writes it, and that
//! what was written is read.

use crate::gguf::{
    aligned, alignment_of, body_at, bytes_at, dims_at, entry_at, fixed_size, gguf_image,
    gguf_magic, i32_at, little_endian, metadata_at, scalar_skipped, scalars_skipped, string_at,
    tensor_at, tensors_at, twos_complement_32, u32_at, u64_at, value_at, GgufImage, GgufValue,
    TensorEntry,
};
use crate::gguf_file::aligned_is_least;
use vstd::arithmetic::power2::is_pow2;
use vstd::prelude::*;
use vstd::utf8::{
    decode_utf8, encode_utf8, encode_utf8_decode_utf8, encode_utf8_valid_utf8, valid_utf8,
};

verus! {

/// A number in so many bytes, the lowest first.
pub open spec fn number_bytes(value: nat, count: nat) -> Seq<u8>
    decreases count,
{
    if count == 0 {
        Seq::empty()
    } else {
        seq![(value % 256) as u8] + number_bytes(value / 256, (count - 1) as nat)
    }
}

/// A text: its length in bytes, then its bytes.
pub open spec fn text_bytes(text: Seq<char>) -> Seq<u8> {
    number_bytes(encode_utf8(text).len(), 8) + encode_utf8(text)
}

/// Texts, one behind the other.
pub open spec fn texts_bytes(texts: Seq<Seq<char>>) -> Seq<u8>
    decreases texts.len(),
{
    if texts.len() == 0 {
        Seq::empty()
    } else {
        texts_bytes(texts.drop_last()) + text_bytes(texts.last())
    }
}

/// A value as it is written. Numbers other than the three kinds that are read
/// are given by their type and their bytes.
pub enum Written {
    U32(u32),
    U64(u64),
    F32(u32),
    Text(Seq<char>),
    Plain { value_type: int, bytes: Seq<u8> },
    Texts(Seq<Seq<char>>),
    Plains { element_type: int, count: nat, bytes: Seq<u8> },
}

/// The bytes of a number of a type: one for `u8`, `i8` and `bool`, two for `u16`
/// and `i16`, four for `u32`, `i32` and `f32`, eight for `u64`, `i64` and `f64`.
pub open spec fn plain_size(value_type: int) -> nat {
    if value_type == 0 || value_type == 1 || value_type == 7 {
        1
    } else if value_type == 2 || value_type == 3 {
        2
    } else if 4 <= value_type <= 6 {
        4
    } else if 10 <= value_type <= 12 {
        8
    } else {
        0
    }
}

/// A length that can be counted.
pub open spec fn counted(len: nat) -> bool {
    len <= usize::MAX
}

/// All texts can be counted.
pub open spec fn all_counted(texts: Seq<Seq<char>>) -> bool {
    forall|i: int| 0 <= i < texts.len() ==> counted(encode_utf8(#[trigger] texts[i]).len())
}

impl Written {
    /// The value can be written.
    pub open spec fn fits(self) -> bool {
        match self {
            Written::Text(text) => counted(encode_utf8(text).len()),
            Written::Plain { value_type, bytes } => {
                &&& plain_size(value_type) > 0 && bytes.len() == plain_size(value_type)
                &&& value_type != 4 && value_type != 6 && value_type != 10
            },
            Written::Texts(texts) => counted(texts.len()) && all_counted(texts),
            Written::Plains { element_type, count, bytes } => {
                &&& plain_size(element_type) > 0
                &&& counted(count)
                &&& bytes.len() == count * plain_size(element_type)
            },
            _ => true,
        }
    }

    /// The number of the value's type.
    pub open spec fn kind(self) -> nat {
        match self {
            Written::U32(_) => 4,
            Written::F32(_) => 6,
            Written::Text(_) => 8,
            Written::Texts(_) | Written::Plains { .. } => 9,
            Written::U64(_) => 10,
            Written::Plain { value_type, .. } => value_type as nat,
        }
    }

    pub open spec fn value_bytes(self) -> Seq<u8> {
        match self {
            Written::U32(value) => number_bytes(value as nat, 4),
            Written::U64(value) => number_bytes(value as nat, 8),
            Written::F32(bits) => number_bytes(bits as nat, 4),
            Written::Text(text) => text_bytes(text),
            Written::Plain { bytes, .. } => bytes,
            Written::Texts(texts) => number_bytes(8, 4) + number_bytes(texts.len(), 8)
                + texts_bytes(texts),
            Written::Plains { element_type, count, bytes } => number_bytes(
                element_type as nat,
                4,
            ) + number_bytes(count, 8) + bytes,
        }
    }

    /// What is kept of the value.
    pub open spec fn kept(self) -> GgufValue {
        match self {
            Written::U32(value) => GgufValue::U32(value),
            Written::U64(value) => GgufValue::U64(value),
            Written::F32(bits) => GgufValue::F32(bits),
            Written::Texts(texts) => GgufValue::ArrayLen(texts.len() as usize),
            Written::Plains { count, .. } => GgufValue::ArrayLen(count as usize),
            _ => GgufValue::Other,
        }
    }
}

/// A metadata entry: its key, the type of its value, its value.
pub open spec fn entry_bytes(key: Seq<char>, value: Written) -> Seq<u8> {
    text_bytes(key) + number_bytes(value.kind(), 4) + value.value_bytes()
}

/// Metadata entries, one behind the other.
pub open spec fn entries_bytes(entries: Seq<(Seq<char>, Written)>) -> Seq<u8>
    decreases entries.len(),
{
    if entries.len() == 0 {
        Seq::empty()
    } else {
        entries_bytes(entries.drop_last()) + entry_bytes(entries.last().0, entries.last().1)
    }
}

/// What is kept of metadata entries; of a key that stands twice the later value.
pub open spec fn entries_kept(entries: Seq<(Seq<char>, Written)>) -> Map<Seq<char>, GgufValue>
    decreases entries.len(),
{
    if entries.len() == 0 {
        Map::empty()
    } else {
        entries_kept(entries.drop_last()).insert(entries.last().0, entries.last().1.kept())
    }
}

/// The dimensions of a tensor, one behind the other.
pub open spec fn dims_bytes(dims: Seq<usize>) -> Seq<u8>
    decreases dims.len(),
{
    if dims.len() == 0 {
        Seq::empty()
    } else {
        dims_bytes(dims.drop_last()) + number_bytes(dims.last() as nat, 8)
    }
}

/// A tensor in the directory: its name, how many dimensions it has, these, its
/// type, and where its data begin.
pub open spec fn tensor_bytes(name: Seq<char>, tensor: TensorEntry) -> Seq<u8> {
    text_bytes(name) + number_bytes(tensor.dims.len(), 4) + dims_bytes(tensor.dims) + number_bytes(
        tensor.ggml_type as nat,
        4,
    ) + number_bytes(tensor.offset as nat, 8)
}

/// Tensors of the directory, one behind the other.
pub open spec fn tensors_bytes(tensors: Seq<(Seq<char>, TensorEntry)>) -> Seq<u8>
    decreases tensors.len(),
{
    if tensors.len() == 0 {
        Seq::empty()
    } else {
        tensors_bytes(tensors.drop_last()) + tensor_bytes(tensors.last().0, tensors.last().1)
    }
}

/// What is kept of tensors; of a name that stands twice the later tensor.
pub open spec fn tensors_kept(tensors: Seq<(Seq<char>, TensorEntry)>) -> Map<Seq<char>, TensorEntry>
    decreases tensors.len(),
{
    if tensors.len() == 0 {
        Map::empty()
    } else {
        tensors_kept(tensors.drop_last()).insert(tensors.last().0, tensors.last().1)
    }
}

/// What stands before the data: the magic bytes, the version, how many tensors
/// and how many entries there are, the entries, and the tensors.
pub open spec fn head_bytes(
    entries: Seq<(Seq<char>, Written)>,
    tensors: Seq<(Seq<char>, TensorEntry)>,
) -> Seq<u8> {
    seq![0x47u8, 0x47u8, 0x55u8, 0x46u8] + number_bytes(3, 4) + number_bytes(tensors.len(), 8)
        + number_bytes(entries.len(), 8) + entries_bytes(entries) + tensors_bytes(tensors)
}

/// Entries and tensors can be written.
pub open spec fn can_be_written(
    entries: Seq<(Seq<char>, Written)>,
    tensors: Seq<(Seq<char>, TensorEntry)>,
) -> bool {
    &&& counted(entries.len()) && counted(tensors.len())
    &&& forall|i: int|
        0 <= i < entries.len() ==> counted(encode_utf8((#[trigger] entries[i]).0).len())
            && entries[i].1.fits()
    &&& forall|i: int|
        0 <= i < tensors.len() ==> counted(encode_utf8((#[trigger] tensors[i]).0).len())
            && tensors[i].1.dims.len() <= u32::MAX && tensors[i].1.ggml_type >= 0
}

/// A piece stands in the bytes at a place.
pub open spec fn stands_at(bytes: Seq<u8>, at: nat, piece: Seq<u8>) -> bool {
    &&& at + piece.len() <= bytes.len()
    &&& bytes.subrange(at as int, (at + piece.len()) as int) == piece
}

proof fn lemma_stands_apart(bytes: Seq<u8>, at: nat, left: Seq<u8>, right: Seq<u8>)
    requires
        stands_at(bytes, at, left + right),
    ensures
        stands_at(bytes, at, left),
        stands_at(bytes, at + left.len(), right),
{
    let whole = bytes.subrange(at as int, (at + left.len() + right.len()) as int);
    assert(whole == left + right);
    assert(bytes.subrange(at as int, (at + left.len()) as int) =~= left) by {
        assert forall|i: int| 0 <= i < left.len() implies bytes[at + i] == #[trigger] left[i] by {
            assert(whole[i] == (left + right)[i]);
        }
    }
    assert(bytes.subrange(
        (at + left.len()) as int,
        (at + left.len() + right.len()) as int,
    ) =~= right) by {
        assert forall|i: int| 0 <= i < right.len() implies bytes[at + left.len() + i]
            == #[trigger] right[i] by {
            assert(whole[left.len() + i] == (left + right)[left.len() + i]);
        }
    }
}

/// Powers of 256.
spec fn pow256(count: nat) -> nat
    decreases count,
{
    if count == 0 {
        1
    } else {
        256 * pow256((count - 1) as nat)
    }
}

proof fn lemma_number_bytes(value: nat, count: nat)
    requires
        value < pow256(count),
    ensures
        number_bytes(value, count).len() == count,
        little_endian(number_bytes(value, count)) == value,
    decreases count,
{
    if count > 0 {
        lemma_number_bytes(value / 256, (count - 1) as nat);
        let bytes = number_bytes(value, count);
        assert(bytes.drop_first() =~= number_bytes(value / 256, (count - 1) as nat));
    }
}

proof fn lemma_u32(bytes: Seq<u8>, at: nat, value: nat)
    requires
        stands_at(bytes, at, number_bytes(value, 4)),
        value <= u32::MAX,
    ensures
        u32_at(bytes, at) == (Ok::<u32, Seq<char>>(value as u32), at + 4),
        value < 0x8000_0000 ==> i32_at(bytes, at) == (Ok::<i32, Seq<char>>(value as i32), at + 4),
        number_bytes(value, 4).len() == 4,
{
    reveal_with_fuel(pow256, 5);
    lemma_number_bytes(value, 4);
}

proof fn lemma_u64(bytes: Seq<u8>, at: nat, value: nat)
    requires
        stands_at(bytes, at, number_bytes(value, 8)),
        value <= u64::MAX,
    ensures
        u64_at(bytes, at) == (Ok::<u64, Seq<char>>(value as u64), at + 8),
        number_bytes(value, 8).len() == 8,
{
    reveal_with_fuel(pow256, 9);
    lemma_number_bytes(value, 8);
}

proof fn lemma_text(bytes: Seq<u8>, at: nat, text: Seq<char>)
    requires
        stands_at(bytes, at, text_bytes(text)),
        counted(encode_utf8(text).len()),
    ensures
        string_at(bytes, at) == (Ok::<Seq<char>, Seq<char>>(text), at + text_bytes(text).len()),
{
    let held = encode_utf8(text);
    lemma_stands_apart(bytes, at, number_bytes(held.len(), 8), held);
    lemma_u64(bytes, at, held.len());
    encode_utf8_valid_utf8(text);
    encode_utf8_decode_utf8(text);
    assert(bytes_at(bytes, at + 8, held.len()) == (
        Ok::<Seq<u8>, Seq<char>>(held),
        at + 8 + held.len(),
    ));
}

proof fn lemma_texts(bytes: Seq<u8>, at: nat, texts: Seq<Seq<char>>)
    requires
        stands_at(bytes, at, texts_bytes(texts)),
        all_counted(texts),
    ensures
        scalars_skipped(bytes, at, 8, texts.len()) == (
            Ok::<(), Seq<char>>(()),
            at + texts_bytes(texts).len(),
        ),
    decreases texts.len(),
{
    if texts.len() > 0 {
        let fewer = texts.drop_last();
        assert forall|i: int| 0 <= i < fewer.len() implies counted(
            encode_utf8(#[trigger] fewer[i]).len(),
        ) by {
            assert(fewer[i] == texts[i]);
        }
        lemma_stands_apart(bytes, at, texts_bytes(fewer), text_bytes(texts.last()));
        lemma_texts(bytes, at, fewer);
        assert(counted(encode_utf8(texts[texts.len() - 1]).len()));
        lemma_text(bytes, at + texts_bytes(fewer).len(), texts.last());
    }
}

proof fn lemma_plains(bytes: Seq<u8>, at: nat, element_type: int, count: nat)
    requires
        plain_size(element_type) > 0,
        at + count * plain_size(element_type) <= bytes.len(),
    ensures
        scalars_skipped(bytes, at, element_type as i32, count) == (
            Ok::<(), Seq<char>>(()),
            at + count * plain_size(element_type),
        ),
    decreases count,
{
    let size = plain_size(element_type);
    assert(fixed_size(element_type as i32) == Some(size));
    if count > 0 {
        assert(count * size == (count - 1) * size + size) by (nonlinear_arith);
        assert(0 <= (count - 1) * size) by (nonlinear_arith)
            requires
                count > 0,
                size > 0,
        ;
        lemma_plains(bytes, at, element_type, (count - 1) as nat);
        let next = at + (count - 1) * size;
        assert(scalar_skipped(bytes, next as nat, element_type as i32) == (
            Ok::<(), Seq<char>>(()),
            (next + size) as nat,
        ));
    } else {
        assert(0 * size == 0);
    }
}

#[verifier::rlimit(50)]
proof fn lemma_value(bytes: Seq<u8>, at: nat, value: Written)
    requires
        stands_at(bytes, at, value.value_bytes()),
        value.fits(),
    ensures
        value_at(bytes, at, value.kind() as i32) == (
            Ok::<GgufValue, Seq<char>>(value.kept()),
            at + value.value_bytes().len(),
        ),
{
    match value {
        Written::U32(number) => lemma_u32(bytes, at, number as nat),
        Written::U64(number) => lemma_u64(bytes, at, number as nat),
        Written::F32(bits) => lemma_u32(bytes, at, bits as nat),
        Written::Text(text) => lemma_text(bytes, at, text),
        Written::Plain { value_type, bytes: held } => {
            assert(fixed_size(value_type as i32) == Some(plain_size(value_type)));
            assert(bytes_at(bytes, at, held.len()).0 is Ok);
        },
        Written::Texts(texts) => {
            let kind = number_bytes(8, 4);
            let len = number_bytes(texts.len(), 8);
            lemma_stands_apart(bytes, at, kind + len, texts_bytes(texts));
            lemma_stands_apart(bytes, at, kind, len);
            lemma_u32(bytes, at, 8);
            lemma_u64(bytes, at + 4, texts.len());
            lemma_texts(bytes, at + 12, texts);
        },
        Written::Plains { element_type, count, bytes: held } => {
            let kind = number_bytes(element_type as nat, 4);
            let len = number_bytes(count, 8);
            lemma_stands_apart(bytes, at, kind + len, held);
            lemma_stands_apart(bytes, at, kind, len);
            lemma_u32(bytes, at, element_type as nat);
            lemma_u64(bytes, at + 4, count);
            lemma_plains(bytes, at + 12, element_type, count);
        },
    }
}

proof fn lemma_entry(bytes: Seq<u8>, at: nat, key: Seq<char>, value: Written)
    requires
        stands_at(bytes, at, entry_bytes(key, value)),
        counted(encode_utf8(key).len()),
        value.fits(),
    ensures
        entry_at(bytes, at) == (
            Ok::<(Seq<char>, GgufValue), Seq<char>>((key, value.kept())),
            at + entry_bytes(key, value).len(),
        ),
{
    let name = text_bytes(key);
    let kind = number_bytes(value.kind(), 4);
    lemma_stands_apart(bytes, at, name + kind, value.value_bytes());
    lemma_stands_apart(bytes, at, name, kind);
    lemma_text(bytes, at, key);
    lemma_u32(bytes, at + name.len(), value.kind());
    lemma_value(bytes, at + name.len() + 4, value);
}

proof fn lemma_entries(bytes: Seq<u8>, at: nat, entries: Seq<(Seq<char>, Written)>)
    requires
        stands_at(bytes, at, entries_bytes(entries)),
        forall|i: int|
            0 <= i < entries.len() ==> counted(encode_utf8((#[trigger] entries[i]).0).len())
                && entries[i].1.fits(),
    ensures
        metadata_at(bytes, at, entries.len()) == (
            Ok::<Map<Seq<char>, GgufValue>, Seq<char>>(entries_kept(entries)),
            at + entries_bytes(entries).len(),
        ),
    decreases entries.len(),
{
    if entries.len() > 0 {
        let fewer = entries.drop_last();
        let last = entries.last();
        assert forall|i: int| 0 <= i < fewer.len() implies counted(
            encode_utf8((#[trigger] fewer[i]).0).len(),
        ) && fewer[i].1.fits() by {
            assert(fewer[i] == entries[i]);
        }
        lemma_stands_apart(bytes, at, entries_bytes(fewer), entry_bytes(last.0, last.1));
        lemma_entries(bytes, at, fewer);
        assert(last == entries[entries.len() - 1]);
        lemma_entry(bytes, at + entries_bytes(fewer).len(), last.0, last.1);
    }
}

proof fn lemma_dims(bytes: Seq<u8>, at: nat, dims: Seq<usize>)
    requires
        stands_at(bytes, at, dims_bytes(dims)),
    ensures
        dims_at(bytes, at, dims.len()) == (
            Ok::<Seq<usize>, Seq<char>>(dims),
            at + dims_bytes(dims).len(),
        ),
    decreases dims.len(),
{
    if dims.len() > 0 {
        let fewer = dims.drop_last();
        lemma_stands_apart(bytes, at, dims_bytes(fewer), number_bytes(dims.last() as nat, 8));
        lemma_dims(bytes, at, fewer);
        lemma_u64(bytes, at + dims_bytes(fewer).len(), dims.last() as nat);
        assert(fewer.push(dims.last()) =~= dims);
    } else {
        assert(dims =~= Seq::<usize>::empty());
    }
}

#[verifier::rlimit(50)]
proof fn lemma_tensor(bytes: Seq<u8>, at: nat, name: Seq<char>, tensor: TensorEntry)
    requires
        stands_at(bytes, at, tensor_bytes(name, tensor)),
        counted(encode_utf8(name).len()),
        tensor.dims.len() <= u32::MAX,
        tensor.ggml_type >= 0,
    ensures
        tensor_at(bytes, at) == (
            Ok::<(Seq<char>, TensorEntry), Seq<char>>((name, tensor)),
            at + tensor_bytes(name, tensor).len(),
        ),
{
    let called = text_bytes(name);
    let rank = number_bytes(tensor.dims.len(), 4);
    let dims = dims_bytes(tensor.dims);
    let kind = number_bytes(tensor.ggml_type as nat, 4);
    let offset = number_bytes(tensor.offset as nat, 8);
    lemma_stands_apart(bytes, at, called + rank + dims + kind, offset);
    lemma_stands_apart(bytes, at, called + rank + dims, kind);
    lemma_stands_apart(bytes, at, called + rank, dims);
    lemma_stands_apart(bytes, at, called, rank);
    lemma_text(bytes, at, name);
    lemma_u32(bytes, at + called.len(), tensor.dims.len());
    lemma_dims(bytes, at + called.len() + 4, tensor.dims);
    lemma_u32(bytes, at + called.len() + 4 + dims.len(), tensor.ggml_type as nat);
    lemma_u64(bytes, at + called.len() + 4 + dims.len() + 4, tensor.offset as nat);
}

proof fn lemma_tensors(bytes: Seq<u8>, at: nat, tensors: Seq<(Seq<char>, TensorEntry)>)
    requires
        stands_at(bytes, at, tensors_bytes(tensors)),
        forall|i: int|
            0 <= i < tensors.len() ==> counted(encode_utf8((#[trigger] tensors[i]).0).len())
                && tensors[i].1.dims.len() <= u32::MAX && tensors[i].1.ggml_type >= 0,
    ensures
        tensors_at(bytes, at, tensors.len()) == (
            Ok::<Map<Seq<char>, TensorEntry>, Seq<char>>(tensors_kept(tensors)),
            at + tensors_bytes(tensors).len(),
        ),
    decreases tensors.len(),
{
    if tensors.len() > 0 {
        let fewer = tensors.drop_last();
        let last = tensors.last();
        assert forall|i: int| 0 <= i < fewer.len() implies counted(
            encode_utf8((#[trigger] fewer[i]).0).len(),
        ) && fewer[i].1.dims.len() <= u32::MAX && fewer[i].1.ggml_type >= 0 by {
            assert(fewer[i] == tensors[i]);
        }
        lemma_stands_apart(bytes, at, tensors_bytes(fewer), tensor_bytes(last.0, last.1));
        lemma_tensors(bytes, at, fewer);
        assert(last == tensors[tensors.len() - 1]);
        lemma_tensor(bytes, at + tensors_bytes(fewer).len(), last.0, last.1);
    }
}

/// The alignment that metadata ask for: the whole number under its key, else 32.
pub open spec fn asks_for_alignment(metadata: Map<Seq<char>, GgufValue>, alignment: nat) -> bool {
    let key = "general.alignment"@;
    if metadata.dom().contains(key) {
        match metadata[key] {
            GgufValue::U32(value) => alignment == value,
            GgufValue::U64(value) => alignment == value,
            _ => alignment == 32,
        }
    } else {
        alignment == 32
    }
}

/// A file that was written is read: all its metadata, all its tensors, and its
/// data, which begin behind as much padding as the alignment asks for.
#[verifier::rlimit(50)]
pub proof fn written_files_are_read(
    entries: Seq<(Seq<char>, Written)>,
    tensors: Seq<(Seq<char>, TensorEntry)>,
    alignment: nat,
    padding: Seq<u8>,
    data: Seq<u8>,
)
    requires
        can_be_written(entries, tensors),
        asks_for_alignment(entries_kept(entries), alignment),
        is_pow2(alignment as int),
        padding.len() < alignment,
        (head_bytes(entries, tensors).len() + padding.len()) % alignment == 0,
        head_bytes(entries, tensors).len() + alignment <= usize::MAX,
    ensures
        gguf_image(head_bytes(entries, tensors) + padding + data) == Ok::<GgufImage, Seq<char>>(
            GgufImage {
                bytes: head_bytes(entries, tensors) + padding + data,
                data_start: head_bytes(entries, tensors).len() + padding.len(),
                metadata: entries_kept(entries),
                tensors: tensors_kept(tensors),
            },
        ),
{
    let head = head_bytes(entries, tensors);
    let bytes = head + padding + data;
    assert(bytes.subrange(0, head.len() as int) =~= head);
    assert(stands_at(bytes, 0, head));
    lemma_head(bytes, entries, tensors);
    lemma_body(bytes, entries, tensors, alignment, padding.len());
}

#[verifier::rlimit(50)]
proof fn lemma_head(
    bytes: Seq<u8>,
    entries: Seq<(Seq<char>, Written)>,
    tensors: Seq<(Seq<char>, TensorEntry)>,
)
    requires
        counted(entries.len()),
        counted(tensors.len()),
        stands_at(bytes, 0, head_bytes(entries, tensors)),
    ensures
        stands_at(bytes, 24, entries_bytes(entries)),
        stands_at(bytes, 24 + entries_bytes(entries).len(), tensors_bytes(tensors)),
        head_bytes(entries, tensors).len() == 24 + entries_bytes(entries).len() + tensors_bytes(
            tensors,
        ).len(),
        gguf_image(bytes) == body_at(bytes, 24, tensors.len(), entries.len()),
{
    let magic = seq![0x47u8, 0x47u8, 0x55u8, 0x46u8];
    let version = number_bytes(3, 4);
    let tensor_count = number_bytes(tensors.len(), 8);
    let entry_count = number_bytes(entries.len(), 8);
    let told = entries_bytes(entries);
    let listed = tensors_bytes(tensors);
    lemma_stands_apart(bytes, 0, magic + version + tensor_count + entry_count + told, listed);
    lemma_stands_apart(bytes, 0, magic + version + tensor_count + entry_count, told);
    lemma_stands_apart(bytes, 0, magic + version + tensor_count, entry_count);
    lemma_stands_apart(bytes, 0, magic + version, tensor_count);
    lemma_stands_apart(bytes, 0, magic, version);
    lemma_u32(bytes, 4, 3);
    lemma_u64(bytes, 8, tensors.len());
    lemma_u64(bytes, 16, entries.len());
    assert(bytes_at(bytes, 0, 4) == (Ok::<Seq<u8>, Seq<char>>(gguf_magic()), 4nat)) by {
        assert(magic =~= gguf_magic());
    }
}

#[verifier::rlimit(50)]
proof fn lemma_body(
    bytes: Seq<u8>,
    entries: Seq<(Seq<char>, Written)>,
    tensors: Seq<(Seq<char>, TensorEntry)>,
    alignment: nat,
    padding: nat,
)
    requires
        can_be_written(entries, tensors),
        stands_at(bytes, 24, entries_bytes(entries)),
        stands_at(bytes, 24 + entries_bytes(entries).len(), tensors_bytes(tensors)),
        asks_for_alignment(entries_kept(entries), alignment),
        is_pow2(alignment as int),
        padding < alignment,
        (24 + entries_bytes(entries).len() + tensors_bytes(tensors).len() + padding) % alignment
            == 0,
        24 + entries_bytes(entries).len() + tensors_bytes(tensors).len() + alignment
            <= usize::MAX,
    ensures
        body_at(bytes, 24, tensors.len(), entries.len()) == Ok::<GgufImage, Seq<char>>(
            GgufImage {
                bytes,
                data_start: 24 + entries_bytes(entries).len() + tensors_bytes(tensors).len()
                    + padding,
                metadata: entries_kept(entries),
                tensors: tensors_kept(tensors),
            },
        ),
{
    let told = entries_bytes(entries);
    let listed = tensors_bytes(tensors);
    lemma_entries(bytes, 24, entries);
    lemma_tensors(bytes, 24 + told.len(), tensors);
    assert(alignment_of(entries_kept(entries)) == alignment);
    lemma_padded(24 + told.len() + listed.len(), padding, alignment);
}

proof fn lemma_padded(len: nat, padding: nat, alignment: nat)
    requires
        padding < alignment,
        (len + padding) % alignment == 0,
    ensures
        aligned(len, alignment) == len + padding,
{
    aligned_is_least(len, alignment);
    let least = aligned(len, alignment);
    let there = len + padding;
    assert(there % alignment == 0);
    assert(least <= there);
    let p = there as int / alignment as int;
    let q = least as int / alignment as int;
    assert(p == q) by (nonlinear_arith)
        requires
            alignment > 0,
            there as int % alignment as int == 0,
            least as int % alignment as int == 0,
            p == there as int / alignment as int,
            q == least as int / alignment as int,
            least <= there,
            there < least + alignment,
    ;
    assert(there == least) by (nonlinear_arith)
        requires
            alignment > 0,
            there as int % alignment as int == 0,
            least as int % alignment as int == 0,
            there as int / alignment as int == least as int / alignment as int,
    ;
}

} // verus!
