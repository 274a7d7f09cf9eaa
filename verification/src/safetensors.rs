//! The safetensors container: a JSON directory in front of the tensors' data.

use crate::error::{config_error, config_outcome, TinyAgentError};
use crate::gguf::{lemma_little_endian_4, lemma_little_endian_8, little_endian};
use crate::gguf_load::{half_words_from, half_words_of, words_from, words_of};
use crate::json::{
    items_of, json_member, json_of, json_parsed_bytes, json_unsigned, member, member_value,
    members_of, object_members, parse_json_bytes, JsonValue,
};
use crate::name_map::NameMap;
use crate::quant::{
    bf16_to_f32, words_hold_eight_codes, QuantEncoding, QuantMatrix, QuantTensor, ScaleFormat,
};
use crate::text::{cat2, cat4, cat5, decimal, decimal_usize, same_text};
use vstd::prelude::*;
use vstd::slice::slice_subrange;

verus! {

/// One entry of the directory; the offsets count from the data section.
#[derive(Debug, Clone)]
pub struct TensorInfo {
    pub dtype: String,
    pub shape: Vec<usize>,
    pub data_offsets: [usize; 2],
}

/// The mathematical value of a `TensorInfo`.
pub struct TensorSpan {
    pub dtype: Seq<char>,
    pub shape: Seq<usize>,
    pub start: usize,
    pub end: usize,
}

impl View for TensorInfo {
    type V = TensorSpan;

    open spec fn view(&self) -> TensorSpan {
        TensorSpan {
            dtype: self.dtype@,
            shape: self.shape@,
            start: self.data_offsets@[0],
            end: self.data_offsets@[1],
        }
    }
}

/// A member of the directory as it was parsed.
pub struct HeaderField {
    pub name: String,
    pub value: serde_json::Value,
}

/// What the members of a directory hold.
pub open spec fn fields_of(fields: Seq<HeaderField>) -> Seq<(Seq<char>, JsonValue)> {
    Seq::new(fields.len(), |i: int| (fields[i].name@, json_of(fields[i].value)))
}

/// A member of the directory, with what its value was decoded to or the text
/// of the error.
pub struct HeaderEntry {
    pub name: String,
    pub info: Result<TensorInfo, String>,
}

/// The mathematical value of a `SafeTensorFile`.
pub struct SafeTensorImage {
    pub bytes: Seq<u8>,
    pub data_start: nat,
    pub tensors: Map<Seq<char>, TensorSpan>,
}

/// Where the data section begins: behind the directory, whose length stands in
/// the first eight bytes.
pub open spec fn data_section(bytes: Seq<u8>) -> Result<usize, Seq<char>> {
    if bytes.len() < 8 {
        Err("invalid safetensors file: shorter than header"@)
    } else {
        let length = little_endian(bytes.subrange(0, 8)) as u64 as usize;
        if 8 + length > bytes.len() {
            Err("invalid safetensors file: truncated header"@)
        } else {
            Ok((8 + length) as usize)
        }
    }
}

/// The members that describe tensors: all but `__metadata__`.
pub open spec fn tensor_members(members: Seq<(Seq<char>, JsonValue)>) -> Seq<
    (Seq<char>, JsonValue),
>
    decreases members.len(),
{
    if members.len() == 0 {
        Seq::empty()
    } else if members.last().0 == "__metadata__"@ {
        tensor_members(members.drop_last())
    } else {
        tensor_members(members.drop_last()).push(members.last())
    }
}

/// The members of the directory of a file.
pub open spec fn header_members(bytes: Seq<u8>) -> Result<
    Seq<(Seq<char>, JsonValue)>,
    Seq<char>,
> {
    match data_section(bytes) {
        Err(text) => Err(text),
        Ok(data_start) => match json_parsed_bytes(bytes.subrange(8, data_start as int)) {
            Err(error) => Err("failed to parse safetensors header: "@ + error),
            Ok(JsonValue::Members(members)) => Ok(tensor_members(members)),
            Ok(_) => Err("safetensors header is not a JSON object"@),
        },
    }
}

/// The tensors that the decoded members describe, or the first that could not
/// be decoded.
pub open spec fn directory(entries: Seq<HeaderEntry>) -> Result<
    Map<Seq<char>, TensorSpan>,
    Seq<char>,
>
    decreases entries.len(),
{
    if entries.len() == 0 {
        Ok(Map::empty())
    } else {
        let last = entries.last();
        match directory(entries.drop_last()) {
            Err(text) => Err(text),
            Ok(map) => match last.info {
                Ok(info) => Ok(map.insert(last.name@, info@)),
                Err(error) => Err(
                    "invalid safetensors tensor metadata for "@ + last.name@ + ": "@ + error@,
                ),
            },
        }
    }
}

/// The names of the members of a directory.
pub open spec fn member_names(members: Seq<(Seq<char>, JsonValue)>) -> Seq<Seq<char>> {
    Seq::new(members.len(), |i: int| members[i].0)
}

/// The names of decoded members.
pub open spec fn entry_names(entries: Seq<HeaderEntry>) -> Seq<Seq<char>> {
    Seq::new(entries.len(), |i: int| entries[i].name@)
}

/// The number where the value is one that a `usize` holds.
pub open spec fn json_size(value: JsonValue) -> Option<usize> {
    match json_unsigned(value) {
        Some(number) => if number <= usize::MAX {
            Some(number as usize)
        } else {
            None
        },
        None => None,
    }
}

/// Each item is such a number.
pub open spec fn all_sizes(items: Seq<JsonValue>) -> bool {
    forall|i: int| 0 <= i < items.len() ==> (#[trigger] json_size(items[i])) is Some
}

/// The numbers where the value is an array of such numbers.
pub open spec fn json_sizes(value: JsonValue) -> Option<Seq<usize>> {
    match value {
        JsonValue::Items(items) => if all_sizes(items) {
            Some(Seq::new(items.len(), |i: int| json_size(items[i])->Some_0))
        } else {
            None
        },
        _ => None,
    }
}

/// The type, the shape and the offsets of a tensor as they stand in its
/// member: under their names in an object, in this order in an array.
pub open spec fn entry_parts(value: JsonValue) -> Option<(JsonValue, JsonValue, JsonValue)> {
    match value {
        JsonValue::Items(items) => if items.len() == 3 {
            Some((items[0], items[1], items[2]))
        } else {
            None
        },
        _ => match (
            json_member(value, "dtype"@),
            json_member(value, "shape"@),
            json_member(value, "data_offsets"@),
        ) {
            (Some(dtype), Some(shape), Some(offsets)) => Some((dtype, shape, offsets)),
            _ => None,
        },
    }
}

/// The tensor that a member describes.
pub open spec fn described(value: JsonValue) -> Option<TensorSpan> {
    match entry_parts(value) {
        None => None,
        Some((dtype, shape, offsets)) => match (dtype, json_sizes(shape), json_sizes(offsets)) {
            (JsonValue::Text(dtype), Some(shape), Some(offsets)) => if offsets.len() == 2 {
                Some(TensorSpan { dtype, shape, start: offsets[0], end: offsets[1] })
            } else {
                None
            },
            _ => None,
        },
    }
}

/// A member was decoded to the tensor that it describes, and refused where it
/// describes none.
pub open spec fn entry_fits(value: JsonValue, info: Result<TensorInfo, String>) -> bool {
    match info {
        Ok(info) => described(value) == Some(info@),
        Err(_) => described(value) is None,
    }
}

/// The decoded members are those of the directory, one for one.
pub open spec fn entries_fit(
    members: Seq<(Seq<char>, JsonValue)>,
    entries: Seq<HeaderEntry>,
) -> bool {
    &&& entry_names(entries) == member_names(members)
    &&& forall|i: int|
        0 <= i < entries.len() ==> #[trigger] entry_fits(members[i].1, entries[i].info)
}

/// What a file holds, given its decoded directory: the entries are those of
/// the members that describe tensors, one for one.
pub open spec fn safetensor_image(bytes: Seq<u8>, entries: Seq<HeaderEntry>) -> Result<
    SafeTensorImage,
    Seq<char>,
> {
    match header_members(bytes) {
        Err(text) => Err(text),
        Ok(members) => if !entries_fit(members, entries) {
            Err("safetensors entries do not match the header"@)
        } else {
            match directory(entries) {
                Err(text) => Err(text),
                Ok(tensors) => Ok(
                    SafeTensorImage {
                        bytes,
                        data_start: data_section(bytes)->Ok_0 as nat,
                        tensors,
                    },
                ),
            }
        },
    }
}

proof fn lemma_directory_names(entries: Seq<HeaderEntry>)
    requires
        directory(entries) is Ok,
    ensures
        forall|name: Seq<char>| #[trigger]
            directory(entries)->Ok_0.dom().contains(name) <==> entry_names(entries).contains(name),
    decreases entries.len(),
{
    let names = entry_names(entries);
    if entries.len() == 0 {
        assert(names =~= Seq::<Seq<char>>::empty());
    } else {
        let rest = entries.drop_last();
        lemma_directory_names(rest);
        assert(names =~= entry_names(rest).push(entries.last().name@));
        assert forall|name: Seq<char>| #[trigger]
            directory(entries)->Ok_0.dom().contains(name) <==> names.contains(name) by {
            if names.contains(name) {
                let at = choose|i: int| 0 <= i < names.len() && names[i] == name;
                if at < rest.len() {
                    assert(entry_names(rest)[at] == name);
                }
            }
            if entry_names(rest).contains(name) {
                let at = choose|i: int|
                    0 <= i < entry_names(rest).len() && entry_names(rest)[i] == name;
                assert(names[at] == name);
            }
            assert(names[entries.len() - 1] == entries.last().name@);
        }
    }
}

proof fn lemma_directory_spans(members: Seq<(Seq<char>, JsonValue)>, entries: Seq<HeaderEntry>)
    requires
        entries_fit(members, entries),
        directory(entries) is Ok,
    ensures
        forall|name: Seq<char>| #[trigger]
            directory(entries)->Ok_0.dom().contains(name) ==> {
                &&& member_value(members, name) is Some
                &&& described(member_value(members, name)->Some_0) == Some(
                    directory(entries)->Ok_0[name],
                )
            },
    decreases entries.len(),
{
    assert(entry_names(entries).len() == member_names(members).len());
    if entries.len() > 0 {
        let last = entries.len() - 1;
        let fewer = entries.drop_last();
        let rest = members.drop_last();
        assert(entry_names(entries)[last] == member_names(members)[last]);
        assert(entry_fits(members[last].1, entries[last].info));
        assert forall|i: int| 0 <= i < fewer.len() implies #[trigger] entry_fits(
            rest[i].1,
            fewer[i].info,
        ) by {
            assert(entry_fits(members[i].1, entries[i].info));
        }
        assert(entry_names(fewer) =~= entry_names(entries).drop_last());
        assert(member_names(rest) =~= member_names(members).drop_last());
        lemma_directory_spans(rest, fewer);
    }
}

/// A file that was read holds just the tensors that its own directory names,
/// each with the type, the shape and the offsets that stand there.
pub proof fn a_file_holds_what_its_header_names(bytes: Seq<u8>, entries: Seq<HeaderEntry>)
    requires
        safetensor_image(bytes, entries) is Ok,
    ensures
        header_members(bytes) is Ok,
        forall|name: Seq<char>| #[trigger]
            safetensor_image(bytes, entries)->Ok_0.tensors.dom().contains(name) <==> member_names(
                header_members(bytes)->Ok_0,
            ).contains(name),
        forall|name: Seq<char>| #[trigger]
            safetensor_image(bytes, entries)->Ok_0.tensors.dom().contains(name) ==> {
                &&& member_value(header_members(bytes)->Ok_0, name) is Some
                &&& described(member_value(header_members(bytes)->Ok_0, name)->Some_0) == Some(
                    safetensor_image(bytes, entries)->Ok_0.tensors[name],
                )
            },
{
    lemma_directory_names(entries);
    lemma_directory_spans(header_members(bytes)->Ok_0, entries);
}

/// Brain floats as single-precision patterns.
pub open spec fn brain_words_of(data: Seq<u8>) -> Seq<u32> {
    Seq::new(half_words_of(data).len(), |i: int| (65536 * half_words_of(data)[i]) as u32)
}

impl SafeTensorImage {
    pub open spec fn info(self, name: Seq<char>) -> Result<TensorSpan, Seq<char>> {
        if self.tensors.dom().contains(name) {
            Ok(self.tensors[name])
        } else {
            Err("missing tensor "@ + name)
        }
    }

    /// The bytes of a tensor.
    pub open spec fn data(self, name: Seq<char>) -> Result<Seq<u8>, Seq<char>> {
        match self.info(name) {
            Err(text) => Err(text),
            Ok(info) => {
                let start = self.data_start + info.start;
                let end = self.data_start + info.end;
                if start <= end <= self.bytes.len() {
                    Ok(self.bytes.subrange(start, end))
                } else {
                    Err("tensor "@ + name + " data offsets are out of bounds"@)
                }
            },
        }
    }

    /// The bytes of a tensor of the given type, a whole number of units.
    pub open spec fn typed_data(self, name: Seq<char>, dtype: Seq<char>, unit: nat) -> Result<
        Seq<u8>,
        Seq<char>,
    > {
        match self.info(name) {
            Err(text) => Err(text),
            Ok(info) => if info.dtype != dtype {
                Err(name + " must have dtype "@ + dtype)
            } else {
                match self.data(name) {
                    Err(text) => Err(text),
                    Ok(data) => if data.len() % unit != 0 {
                        Err(name + " byte length is not divisible by "@ + decimal(unit))
                    } else {
                        Ok(data)
                    },
                }
            },
        }
    }

    pub open spec fn u32_tensor(self, name: Seq<char>) -> Result<Seq<u32>, Seq<char>> {
        match self.typed_data(name, "U32"@, 4) {
            Ok(data) => Ok(words_of(data)),
            Err(text) => Err(text),
        }
    }

    /// The stored patterns of brain floats.
    pub open spec fn brain_tensor(self, name: Seq<char>) -> Result<Seq<u16>, Seq<char>> {
        match self.typed_data(name, "BF16"@, 2) {
            Ok(data) => Ok(half_words_of(data)),
            Err(text) => Err(text),
        }
    }

    /// Brain floats as single-precision patterns.
    pub open spec fn bf16_tensor(self, name: Seq<char>) -> Result<Seq<u32>, Seq<char>> {
        match self.typed_data(name, "BF16"@, 2) {
            Ok(data) => Ok(brain_words_of(data)),
            Err(text) => Err(text),
        }
    }

    /// The columns of a matrix, eight in each stored word, can be counted.
    pub open spec fn columns_fit(self, prefix: Seq<char>) -> bool {
        let weight = self.tensors[prefix + ".weight"@];
        self.tensors.dom().contains(prefix + ".weight"@) && weight.dtype == "U32"@
            && weight.shape.len() == 2 ==> 8 * weight.shape[1] <= usize::MAX
    }

    /// What is wrong with the shapes of the three parts of a matrix, in the
    /// order in which they are looked at.
    pub open spec fn quant_refusal(self, prefix: Seq<char>) -> Option<Seq<char>> {
        let weight_name = prefix + ".weight"@;
        let scales_name = prefix + ".scales"@;
        let biases_name = prefix + ".biases"@;
        match self.info(weight_name) {
            Err(text) => Some(text),
            Ok(weight) => if weight.dtype != "U32"@ || weight.shape.len() != 2 {
                Some(weight_name + " must be a rank-2 U32 tensor"@)
            } else {
                match self.info(scales_name) {
                    Err(text) => Some(text),
                    Ok(scales) => if scales.dtype != "BF16"@ || scales.shape.len() != 2
                        || scales.shape[0] != weight.shape[0] {
                        Some(scales_name + " must be BF16 [out_dim, groups]"@)
                    } else if scales.shape[1] != (8 * weight.shape[1] + 63) / 64 {
                        Some(
                            scales_name + " groups "@ + decimal(scales.shape[1] as nat)
                                + " does not match expected "@ + decimal(
                                ((8 * weight.shape[1] + 63) / 64) as nat,
                            ),
                        )
                    } else {
                        match self.info(biases_name) {
                            Err(text) => Some(text),
                            Ok(biases) => if biases.dtype != "BF16"@ || biases.shape
                                != scales.shape {
                                Some(biases_name + " must match scale tensor shape"@)
                            } else {
                                None
                            },
                        }
                    },
                }
            },
        }
    }

    /// A matrix of four-bit numbers with a scale and a bias for every 64.
    pub open spec fn quant_tensor(self, prefix: Seq<char>) -> Result<QuantMatrix, Seq<char>> {
        match self.quant_refusal(prefix) {
            Some(text) => Err(text),
            None => match self.u32_tensor(prefix + ".weight"@) {
                Err(text) => Err(text),
                Ok(weight) => match self.brain_tensor(prefix + ".scales"@) {
                    Err(text) => Err(text),
                    Ok(scales) => match self.brain_tensor(prefix + ".biases"@) {
                        Err(text) => Err(text),
                        Ok(biases) => {
                            let shape = self.tensors[prefix + ".weight"@].shape;
                            Ok(
                                QuantMatrix {
                                    name: prefix,
                                    encoding: QuantEncoding::AffineQ4,
                                    out_dim: shape[0],
                                    in_dim: (8 * shape[1]) as usize,
                                    packed_per_row: shape[1],
                                    groups_per_row: ((8 * shape[1] + 63) / 64) as usize,
                                    group_size: 64,
                                    weight,
                                    q8_values: Seq::empty(),
                                    scale_format: ScaleFormat::Brain,
                                    scales,
                                    biases,
                                },
                            )
                        },
                    },
                },
            },
        }
    }
}

/// A file with its directory.
pub struct SafeTensorFile {
    bytes: Vec<u8>,
    data_start: usize,
    tensors: NameMap<TensorInfo>,
}

impl View for SafeTensorFile {
    type V = SafeTensorImage;

    closed spec fn view(&self) -> SafeTensorImage {
        SafeTensorImage {
            bytes: self.bytes@,
            data_start: self.data_start as nat,
            tensors: self.tensors@,
        }
    }
}

/// Where the data section begins. The directory lies between the first eight
/// bytes and that place.
pub fn header_end(bytes: &Vec<u8>) -> (result: Result<usize, TinyAgentError>)
    ensures
        config_outcome(result, data_section(bytes@)),
        result is Ok ==> 8 <= result->Ok_0 <= bytes@.len(),
{
    if bytes.len() < 8 {
        return Err(config_error("invalid safetensors file: shorter than header"));
    }
    let mut length: u64 = 0;
    let mut index: usize = 8;
    let ghost head = bytes@.subrange(0, 8);
    assert(head.skip(8) =~= Seq::<u8>::empty());
    while index > 0
        invariant
            index <= 8 <= bytes@.len(),
            head == bytes@.subrange(0, 8),
            length == little_endian(head.skip(index as int)),
            length < byte_limit((8 - index) as nat) <= 0x1_0000_0000_0000_0000,
        decreases index,
    {
        index = index - 1;
        proof {
            assert(head.skip(index as int).drop_first() =~= head.skip(index + 1));
            reveal_with_fuel(byte_limit, 9);
        }
        length = 256 * length + bytes[index] as u64;
    }
    assert(head.skip(0) =~= head);
    let length: usize = length as usize;
    if length > bytes.len() - 8 {
        return Err(config_error("invalid safetensors file: truncated header"));
    }
    Ok(8 + length)
}

/// The members of a file's directory that describe tensors.
pub fn header_fields(bytes: &Vec<u8>) -> (result: Result<Vec<HeaderField>, TinyAgentError>)
    ensures
        match result {
            Ok(fields) => header_members(bytes@) == Ok::<Seq<(Seq<char>, JsonValue)>, Seq<char>>(
                fields_of(fields@),
            ),
            Err(error) => error@ is Configuration && header_members(bytes@) == Err::<
                Seq<(Seq<char>, JsonValue)>,
                Seq<char>,
            >(error@->Configuration_0),
        },
{
    let end: usize = match header_end(bytes) {
        Ok(end) => end,
        Err(error) => return Err(error),
    };
    let value = match parse_json_bytes(slice_subrange(bytes.as_slice(), 8, end)) {
        Ok(value) => value,
        Err(error) => return Err(
            TinyAgentError::Configuration(
                cat2("failed to parse safetensors header: ", error.as_str()),
            ),
        ),
    };
    let members: Vec<(String, serde_json::Value)> = match object_members(&value) {
        Some(members) => members,
        None => return Err(config_error("safetensors header is not a JSON object")),
    };
    let mut fields: Vec<HeaderField> = Vec::new();
    let ghost all = members_of(members@);
    assert(all.take(0) =~= Seq::<(Seq<char>, JsonValue)>::empty());
    assert(fields_of(fields@) =~= Seq::<(Seq<char>, JsonValue)>::empty());
    for (name, value) in iter: members
        invariant
            all == members_of(iter.seq()),
            fields_of(fields@) == tensor_members(all.take(iter.index() as int)),
    {
        let ghost at = iter.index() as int;
        let ghost before = fields@;
        assert(all.take(at + 1).drop_last() =~= all.take(at));
        assert(all.take(at + 1).last() == (name@, json_of(value)));
        if !same_text(name.as_str(), "__metadata__") {
            fields.push(HeaderField { name, value });
            assert(fields_of(fields@) =~= fields_of(before).push((name@, json_of(value))));
        }
    }
    assert(all.take(all.len() as int) =~= all);
    Ok(fields)
}

/// Powers of 256.
spec fn byte_limit(count: nat) -> nat
    decreases count,
{
    if count == 0 {
        1
    } else {
        256 * byte_limit((count - 1) as nat)
    }
}

proof fn lemma_directory_fails(entries: Seq<HeaderEntry>, prefix: nat)
    requires
        prefix <= entries.len(),
        directory(entries.take(prefix as int)) is Err,
    ensures
        directory(entries) == directory(entries.take(prefix as int)),
    decreases entries.len(),
{
    if prefix == entries.len() {
        assert(entries.take(prefix as int) =~= entries);
    } else {
        assert(entries.drop_last().take(prefix as int) =~= entries.take(prefix as int));
        lemma_directory_fails(entries.drop_last(), prefix);
    }
}

fn copy_info(info: &TensorInfo) -> (copy: TensorInfo)
    ensures
        copy@ == info@,
{
    let mut shape: Vec<usize> = Vec::new();
    let mut index: usize = 0;
    while index < info.shape.len()
        invariant
            index <= info.shape@.len(),
            shape@ == info.shape@.take(index as int),
        decreases info.shape@.len() - index,
    {
        shape.push(info.shape[index]);
        index = index + 1;
        assert(shape@ =~= info.shape@.take(index as int));
    }
    assert(info.shape@.take(index as int) =~= info.shape@);
    TensorInfo {
        dtype: info.dtype.clone(),
        shape,
        data_offsets: [info.data_offsets[0], info.data_offsets[1]],
    }
}

fn read_directory(entries: &Vec<HeaderEntry>) -> (result: Result<
    NameMap<TensorInfo>,
    TinyAgentError,
>)
    ensures
        config_outcome(result, directory(entries@)),
        result is Ok ==> result->Ok_0.wf(),
{
    let mut tensors: NameMap<TensorInfo> = NameMap::new();
    let mut index: usize = 0;
    assert(entries@.take(0) =~= Seq::<HeaderEntry>::empty());
    while index < entries.len()
        invariant
            index <= entries@.len(),
            tensors.wf(),
            directory(entries@.take(index as int)) == Ok::<Map<Seq<char>, TensorSpan>, Seq<char>>(
                tensors@,
            ),
        decreases entries@.len() - index,
    {
        let ghost next = entries@.take(index + 1);
        assert(next.drop_last() =~= entries@.take(index as int));
        assert(next.last() == entries@[index as int]);
        let entry = &entries[index];
        match &entry.info {
            Ok(info) => tensors.insert(entry.name.clone(), copy_info(info)),
            Err(error) => {
                proof {
                    lemma_directory_fails(entries@, (index + 1) as nat);
                }
                return Err(
                    TinyAgentError::Configuration(
                        cat4(
                            "invalid safetensors tensor metadata for ",
                            entry.name.as_str(),
                            ": ",
                            error.as_str(),
                        ),
                    ),
                );
            },
        }
        index = index + 1;
    }
    assert(entries@.take(index as int) =~= entries@);
    Ok(tensors)
}

fn same_shape(left: &Vec<usize>, right: &Vec<usize>) -> (same: bool)
    ensures
        same == (left@ == right@),
{
    if left.len() != right.len() {
        return false;
    }
    let mut index: usize = 0;
    while index < left.len()
        invariant
            index <= left@.len() == right@.len(),
            forall|i: int| 0 <= i < index ==> left@[i] == right@[i],
        decreases left@.len() - index,
    {
        if left[index] != right[index] {
            return false;
        }
        index = index + 1;
    }
    assert(left@ =~= right@);
    true
}

fn size_of(value: &serde_json::Value) -> (size: Option<usize>)
    ensures
        size == json_size(json_of(*value)),
{
    match value.as_u64() {
        Some(number) => if number <= usize::MAX as u64 {
            Some(number as usize)
        } else {
            None
        },
        None => None,
    }
}

fn sizes_of(value: &serde_json::Value) -> (sizes: Option<Vec<usize>>)
    ensures
        match sizes {
            Some(sizes) => json_sizes(json_of(*value)) == Some(sizes@),
            None => json_sizes(json_of(*value)) is None,
        },
{
    let items = match value.as_array() {
        Some(items) => items,
        None => return None,
    };
    let ghost held = items_of(items@);
    let mut sizes: Vec<usize> = Vec::new();
    let mut index: usize = 0;
    #[verifier::loop_isolation(false)]
    while index < items.len()
        invariant
            index == sizes@.len() <= items@.len() == held.len(),
            forall|i: int| 0 <= i < index ==> #[trigger] json_size(held[i]) == Some(sizes@[i]),
        decreases items@.len() - index,
    {
        match size_of(&items[index]) {
            Some(size) => sizes.push(size),
            None => {
                assert(json_size(held[index as int]) is None);
                return None;
            },
        }
        index = index + 1;
    }
    assert(sizes@ =~= Seq::new(held.len(), |i: int| json_size(held[i])->Some_0));
    Some(sizes)
}

fn parts_of(value: &serde_json::Value) -> (parts: Option<
    (&serde_json::Value, &serde_json::Value, &serde_json::Value),
>)
    ensures
        match parts {
            Some(parts) => entry_parts(json_of(*value)) == Some(
                (json_of(*parts.0), json_of(*parts.1), json_of(*parts.2)),
            ),
            None => entry_parts(json_of(*value)) is None,
        },
{
    match value.as_array() {
        Some(items) => if items.len() == 3 {
            Some((&items[0], &items[1], &items[2]))
        } else {
            None
        },
        None => match (member(value, "dtype"), member(value, "shape"), member(value, "data_offsets")) {
            (Some(dtype), Some(shape), Some(offsets)) => Some((dtype, shape, offsets)),
            _ => None,
        },
    }
}

fn describe(value: &serde_json::Value) -> (info: Option<TensorInfo>)
    ensures
        match info {
            Some(info) => described(json_of(*value)) == Some(info@),
            None => described(json_of(*value)) is None,
        },
{
    let (dtype, shape, offsets) = match parts_of(value) {
        Some(parts) => parts,
        None => return None,
    };
    match (dtype.as_str(), sizes_of(shape), sizes_of(offsets)) {
        (Some(dtype), Some(shape), Some(offsets)) => if offsets.len() == 2 {
            Some(
                TensorInfo {
                    dtype: dtype.to_owned(),
                    shape,
                    data_offsets: [offsets[0], offsets[1]],
                },
            )
        } else {
            None
        },
        _ => None,
    }
}

fn decoded_right(value: &serde_json::Value, info: &Result<TensorInfo, String>) -> (right: bool)
    ensures
        right == entry_fits(json_of(*value), *info),
{
    match (describe(value), info) {
        (Some(own), Ok(info)) => same_text(own.dtype.as_str(), info.dtype.as_str()) && same_shape(
            &own.shape,
            &info.shape,
        ) && own.data_offsets[0] == info.data_offsets[0] && own.data_offsets[1]
            == info.data_offsets[1],
        (None, Err(_)) => true,
        _ => false,
    }
}

/// Whether the decoded members are those of the directory, one for one.
fn same_entries(fields: &Vec<HeaderField>, entries: &Vec<HeaderEntry>) -> (same: bool)
    ensures
        same == entries_fit(fields_of(fields@), entries@),
{
    let ghost members = fields_of(fields@);
    let ghost given = entry_names(entries@);
    let ghost named = member_names(members);
    if fields.len() != entries.len() {
        assert(given.len() != named.len());
        return false;
    }
    let mut index: usize = 0;
    #[verifier::loop_isolation(false)]
    while index < fields.len()
        invariant
            index <= fields@.len() == entries@.len(),
            forall|i: int| 0 <= i < index ==> given[i] == named[i],
            forall|i: int|
                0 <= i < index ==> #[trigger] entry_fits(members[i].1, entries@[i].info),
        decreases fields@.len() - index,
    {
        if !same_text(fields[index].name.as_str(), entries[index].name.as_str()) {
            assert(given[index as int] != named[index as int]);
            return false;
        }
        if !decoded_right(&fields[index].value, &entries[index].info) {
            assert(!entry_fits(members[index as int].1, entries@[index as int].info));
            return false;
        }
        index = index + 1;
    }
    assert(given =~= named);
    true
}

impl SafeTensorFile {
    pub closed spec fn wf(&self) -> bool {
        self.tensors.wf()
    }

    /// The file that the bytes hold, given its decoded directory.
    pub fn read(bytes: Vec<u8>, entries: &Vec<HeaderEntry>) -> (result: Result<
        Self,
        TinyAgentError,
    >)
        ensures
            config_outcome(result, safetensor_image(bytes@, entries@)),
            result is Ok ==> result->Ok_0.wf(),
    {
        let fields: Vec<HeaderField> = match header_fields(&bytes) {
            Ok(fields) => fields,
            Err(error) => return Err(error),
        };
        if !same_entries(&fields, entries) {
            return Err(config_error("safetensors entries do not match the header"));
        }
        let data_start: usize = match header_end(&bytes) {
            Ok(data_start) => data_start,
            Err(error) => return Err(error),
        };
        match read_directory(entries) {
            Ok(tensors) => Ok(SafeTensorFile { bytes, data_start, tensors }),
            Err(error) => Err(error),
        }
    }

    pub fn info(&self, name: &str) -> (result: Result<&TensorInfo, TinyAgentError>)
        requires
            self.wf(),
        ensures
            config_outcome(result, self@.info(name@)),
    {
        match self.tensors.get(name) {
            Some(info) => Ok(info),
            None => Err(TinyAgentError::Configuration(cat2("missing tensor ", name))),
        }
    }

    pub fn tensor_bytes(&self, name: &str) -> (result: Result<&[u8], TinyAgentError>)
        requires
            self.wf(),
        ensures
            config_outcome(result, self@.data(name@)),
    {
        let info = match self.info(name) {
            Ok(info) => info,
            Err(error) => return Err(error),
        };
        let start: u128 = self.data_start as u128 + info.data_offsets[0] as u128;
        let end: u128 = self.data_start as u128 + info.data_offsets[1] as u128;
        if start <= end && end <= self.bytes.len() as u128 {
            Ok(
                vstd::slice::slice_subrange(
                    self.bytes.as_slice(),
                    start as usize,
                    end as usize,
                ),
            )
        } else {
            Err(
                TinyAgentError::Configuration(
                    crate::text::cat3("tensor ", name, " data offsets are out of bounds"),
                ),
            )
        }
    }

    fn typed_bytes(&self, name: &str, dtype: &str, unit: usize) -> (result: Result<
        &[u8],
        TinyAgentError,
    >)
        requires
            self.wf(),
            unit > 0,
        ensures
            config_outcome(result, self@.typed_data(name@, dtype@, unit as nat)),
    {
        let info = match self.info(name) {
            Ok(info) => info,
            Err(error) => return Err(error),
        };
        if !same_text(info.dtype.as_str(), dtype) {
            return Err(
                TinyAgentError::Configuration(
                    crate::text::cat3(name, " must have dtype ", dtype),
                ),
            );
        }
        let bytes = match self.tensor_bytes(name) {
            Ok(bytes) => bytes,
            Err(error) => return Err(error),
        };
        if bytes.len() % unit != 0 {
            return Err(
                TinyAgentError::Configuration(
                    crate::text::cat3(
                        name,
                        " byte length is not divisible by ",
                        decimal_usize(unit).as_str(),
                    ),
                ),
            );
        }
        Ok(bytes)
    }

    pub fn load_u32(&self, name: &str) -> (result: Result<Vec<u32>, TinyAgentError>)
        requires
            self.wf(),
        ensures
            config_outcome(result, self@.u32_tensor(name@)),
    {
        match self.typed_bytes(name, "U32", 4) {
            Ok(bytes) => Ok(words_from(bytes)),
            Err(error) => Err(error),
        }
    }

    /// The stored patterns of brain floats.
    pub fn load_brain(&self, name: &str) -> (result: Result<Vec<u16>, TinyAgentError>)
        requires
            self.wf(),
        ensures
            config_outcome(result, self@.brain_tensor(name@)),
    {
        match self.typed_bytes(name, "BF16", 2) {
            Ok(bytes) => Ok(half_words_from(bytes)),
            Err(error) => Err(error),
        }
    }

    /// Brain floats as single-precision patterns.
    pub fn load_bf16(&self, name: &str) -> (result: Result<Vec<u32>, TinyAgentError>)
        requires
            self.wf(),
        ensures
            config_outcome(result, self@.bf16_tensor(name@)),
    {
        let bytes = match self.typed_bytes(name, "BF16", 2) {
            Ok(bytes) => bytes,
            Err(error) => return Err(error),
        };
        let stored: Vec<u16> = half_words_from(bytes);
        let mut words: Vec<u32> = Vec::new();
        let mut index: usize = 0;
        while index < stored.len()
            invariant
                index <= stored@.len(),
                stored@ == half_words_of(bytes@),
                words@ == brain_words_of(bytes@).take(index as int),
            decreases stored@.len() - index,
        {
            words.push(bf16_to_f32(stored[index]));
            index = index + 1;
            assert(words@ =~= brain_words_of(bytes@).take(index as int));
        }
        assert(brain_words_of(bytes@).take(index as int) =~= brain_words_of(bytes@));
        Ok(words)
    }

    /// Whether the columns of a matrix can be counted.
    pub fn columns_fit(&self, prefix: &str) -> (yes: bool)
        requires
            self.wf(),
        ensures
            yes == self@.columns_fit(prefix@),
    {
        match self.info(cat2(prefix, ".weight").as_str()) {
            Ok(weight) => !same_text(weight.dtype.as_str(), "U32") || weight.shape.len() != 2
                || weight.shape[1] as u128 * 8 <= usize::MAX as u128,
            Err(_) => true,
        }
    }

    /// The shape checks of the three parts of a matrix.
    fn check_quant(&self, prefix: &str) -> (result: Result<(usize, usize), TinyAgentError>)
        requires
            self.wf(),
            self@.columns_fit(prefix@),
        ensures
            match result {
                Ok(found) => {
                    &&& self@.quant_refusal(prefix@) is None
                    &&& found.0 == self@.tensors[prefix@ + ".weight"@].shape[0]
                    &&& found.1 == self@.tensors[prefix@ + ".weight"@].shape[1]
                    &&& 8 * found.1 <= usize::MAX
                },
                Err(error) => error@ is Configuration && self@.quant_refusal(prefix@) == Some(
                    error@->Configuration_0,
                ),
            },
    {
        let weight_name = cat2(prefix, ".weight");
        let scales_name = cat2(prefix, ".scales");
        let biases_name = cat2(prefix, ".biases");
        let weight = match self.info(weight_name.as_str()) {
            Ok(weight) => weight,
            Err(error) => return Err(error),
        };
        if !same_text(weight.dtype.as_str(), "U32") || weight.shape.len() != 2 {
            return Err(
                TinyAgentError::Configuration(
                    cat2(weight_name.as_str(), " must be a rank-2 U32 tensor"),
                ),
            );
        }
        let out_dim: usize = weight.shape[0];
        let packed_per_row: usize = weight.shape[1];
        assert(self@.tensors.dom().contains(prefix@ + ".weight"@));
        let in_dim: usize = packed_per_row * 8;
        let scales = match self.info(scales_name.as_str()) {
            Ok(scales) => scales,
            Err(error) => return Err(error),
        };
        if !same_text(scales.dtype.as_str(), "BF16") || scales.shape.len() != 2
            || scales.shape[0] != out_dim {
            return Err(
                TinyAgentError::Configuration(
                    cat2(scales_name.as_str(), " must be BF16 [out_dim, groups]"),
                ),
            );
        }
        let groups_per_row: usize = scales.shape[1];
        let expected_groups: usize = if in_dim % 64 == 0 {
            in_dim / 64
        } else {
            in_dim / 64 + 1
        };
        if groups_per_row != expected_groups {
            return Err(
                TinyAgentError::Configuration(
                    cat5(
                        scales_name.as_str(),
                        " groups ",
                        decimal_usize(groups_per_row).as_str(),
                        " does not match expected ",
                        decimal_usize(expected_groups).as_str(),
                    ),
                ),
            );
        }
        let biases = match self.info(biases_name.as_str()) {
            Ok(biases) => biases,
            Err(error) => return Err(error),
        };
        if !same_text(biases.dtype.as_str(), "BF16") || !same_shape(&biases.shape, &scales.shape) {
            return Err(
                TinyAgentError::Configuration(
                    cat2(biases_name.as_str(), " must match scale tensor shape"),
                ),
            );
        }
        Ok((out_dim, packed_per_row))
    }

    pub fn load_quant(&self, prefix: &str) -> (result: Result<QuantTensor, TinyAgentError>)
        requires
            self.wf(),
            self@.columns_fit(prefix@),
        ensures
            config_outcome(result, self@.quant_tensor(prefix@)),
    {
        let (out_dim, packed_per_row) = match self.check_quant(prefix) {
            Ok(found) => found,
            Err(error) => return Err(error),
        };
        let in_dim: usize = packed_per_row * 8;
        let groups_per_row: usize = if in_dim % 64 == 0 {
            in_dim / 64
        } else {
            in_dim / 64 + 1
        };
        let weight = match self.load_u32(cat2(prefix, ".weight").as_str()) {
            Ok(weight) => weight,
            Err(error) => return Err(error),
        };
        let scales = match self.load_brain(cat2(prefix, ".scales").as_str()) {
            Ok(scales) => scales,
            Err(error) => return Err(error),
        };
        let biases = match self.load_brain(cat2(prefix, ".biases").as_str()) {
            Ok(biases) => biases,
            Err(error) => return Err(error),
        };
        let tensor = QuantTensor {
            name: prefix.to_owned(),
            encoding: QuantEncoding::AffineQ4,
            out_dim,
            in_dim,
            packed_per_row,
            groups_per_row,
            group_size: 64,
            weight,
            q8_values: Vec::new(),
            scale_format: ScaleFormat::Brain,
            scales,
            biases,
        };
        proof {
            assert(tensor@ =~= self@.quant_tensor(prefix@)->Ok_0);
        }
        Ok(tensor)
    }
}

/// The directory stands behind eight bytes that tell its length, the lowest
/// first, and the data stand behind the directory.
pub proof fn data_stand_behind_the_directory(bytes: Seq<u8>)
    requires
        bytes.len() <= usize::MAX,
    ensures
        data_section(bytes) is Ok ==> {
            let length = bytes[0] + 0x100 * bytes[1] + 0x1_0000 * bytes[2] + 0x100_0000 * bytes[3]
                + 0x1_0000_0000 * bytes[4] + 0x100_0000_0000 * bytes[5] + 0x1_0000_0000_0000
                * bytes[6] + 0x100_0000_0000_0000 * bytes[7];
            &&& 8 <= bytes.len()
            &&& length <= usize::MAX ==> data_section(bytes)->Ok_0 == 8 + length
            &&& 8 <= data_section(bytes)->Ok_0 <= bytes.len()
        },
        bytes.len() < 8 ==> data_section(bytes) is Err,
{
    if bytes.len() >= 8 {
        let head = bytes.subrange(0, 8);
        lemma_little_endian_8(head);
        lemma_little_endian_4(head.subrange(0, 4));
        lemma_little_endian_4(head.subrange(4, 8));
    }
}

/// The bytes of a tensor are those of the file between its two offsets, which
/// count from the data section.
pub proof fn tensor_bytes_lie_between_their_offsets(image: SafeTensorImage, name: Seq<char>, at: int)
    ensures
        image.data(name) is Ok <==> {
            let span = image.tensors[name];
            &&& image.tensors.dom().contains(name)
            &&& span.start <= span.end
            &&& image.data_start + span.end <= image.bytes.len()
        },
        image.data(name) is Ok ==> {
            let span = image.tensors[name];
            let data = image.data(name)->Ok_0;
            &&& data.len() == span.end - span.start
            &&& 0 <= at < data.len() ==> data[at] == image.bytes[image.data_start + span.start + at]
        },
{
}

/// A vector of brain floats is made of pairs of bytes, the lower one first, which
/// become the upper half of a pattern of 32 bits.
pub proof fn brain_floats_are_upper_halves(image: SafeTensorImage, name: Seq<char>, index: int)
    requires
        image.bf16_tensor(name) is Ok,
    ensures
        ({
            let words = image.bf16_tensor(name)->Ok_0;
            let data = image.data(name)->Ok_0;
            &&& image.tensors[name].dtype == "BF16"@
            &&& 2 * words.len() == data.len()
            &&& 0 <= index < words.len() ==> words[index] == 0x1_0000 * data[2 * index]
                + 0x100_0000 * data[2 * index + 1]
        }),
{
}

/// A matrix has a row for each row of its words and eight columns for each of
/// their columns, and a scale and a bias for each run of 64 columns.
#[verifier::rlimit(50)]
pub proof fn quant_shapes_are_stored_shapes(image: SafeTensorImage, prefix: Seq<char>)
    requires
        image.columns_fit(prefix),
        image.quant_tensor(prefix) is Ok,
    ensures
        ({
            let matrix = image.quant_tensor(prefix)->Ok_0;
            let weight = image.tensors[prefix + ".weight"@];
            let scales = image.tensors[prefix + ".scales"@];
            let biases = image.tensors[prefix + ".biases"@];
            &&& weight.shape == seq![matrix.out_dim, matrix.packed_per_row]
            &&& matrix.in_dim == 8 * matrix.packed_per_row
            &&& scales.shape == seq![matrix.out_dim, matrix.groups_per_row]
            &&& biases.shape == scales.shape
            &&& matrix.group_size == 64
            &&& 64 * matrix.groups_per_row >= matrix.in_dim
            &&& 64 * matrix.groups_per_row < matrix.in_dim + 64
            &&& weight.dtype == "U32"@ && scales.dtype == "BF16"@ && biases.dtype == "BF16"@
            &&& matrix.encoding == QuantEncoding::AffineQ4
            &&& matrix.scale_format == ScaleFormat::Brain
            &&& matrix.name == prefix
        }),
{
    let matrix = image.quant_tensor(prefix)->Ok_0;
    let weight = image.tensors[prefix + ".weight"@];
    let scales = image.tensors[prefix + ".scales"@];
    assert(weight.shape =~= seq![matrix.out_dim, matrix.packed_per_row]);
    assert(scales.shape =~= seq![matrix.out_dim, matrix.groups_per_row]);
}

/// The bytes of a matrix of a checkpoint can be written again from the matrix
/// that was loaded of them. Each byte of its words holds two neighbouring
/// numbers of a row, the first of them in its low half. The scale and the bias of
/// a group are pairs of bytes, the lower one first.
#[verifier::rlimit(50)]
pub proof fn quant_bytes_are_written_again(
    image: SafeTensorImage,
    prefix: Seq<char>,
    row: int,
    word: int,
    byte: int,
    group: int,
)
    requires
        image.quant_tensor(prefix) is Ok,
        0 <= word,
        0 <= row,
        0 <= byte < 4,
        0 <= group,
    ensures
        ({
            let matrix = image.quant_tensor(prefix)->Ok_0;
            let weight = image.data(prefix + ".weight"@)->Ok_0;
            let scales = image.data(prefix + ".scales"@)->Ok_0;
            let biases = image.data(prefix + ".biases"@)->Ok_0;
            let at = row * matrix.packed_per_row + word;
            &&& 4 * matrix.weight.len() == weight.len()
            &&& 2 * matrix.scales.len() == scales.len()
            &&& 2 * matrix.biases.len() == biases.len()
            &&& 4 * at + 4 <= weight.len() ==> weight[4 * at + byte] == matrix.code(
                row,
                8 * word + 2 * byte,
            ) + 16 * matrix.code(row, 8 * word + 2 * byte + 1)
            &&& 2 * group + 2 <= scales.len() ==> matrix.scales[group] == scales[2 * group] + 256
                * scales[2 * group + 1]
            &&& 2 * group + 2 <= biases.len() ==> matrix.biases[group] == biases[2 * group] + 256
                * biases[2 * group + 1]
        }),
{
    let matrix = image.quant_tensor(prefix)->Ok_0;
    let weight = image.data(prefix + ".weight"@)->Ok_0;
    let at = row * matrix.packed_per_row + word;
    assert(0 <= at) by (nonlinear_arith)
        requires
            at == row * matrix.packed_per_row + word,
            0 <= row,
            0 <= word,
            0 <= matrix.packed_per_row,
    ;
    if 4 * at + 4 <= weight.len() {
        let part = weight.subrange(4 * at, 4 * at + 4);
        lemma_little_endian_4(part);
        lemma_word_bytes(matrix, row, word, part);
        assert(weight[4 * at + byte] == part[byte]);
    }
}

#[verifier::rlimit(50)]
proof fn lemma_word_bytes(matrix: QuantMatrix, row: int, word: int, part: Seq<u8>)
    requires
        0 <= word,
        part.len() == 4,
        matrix.weight[row * matrix.packed_per_row + word] == part[0] + 256 * part[1] + 65536
            * part[2] + 16777216 * part[3],
    ensures
        forall|byte: int|
            0 <= byte < 4 ==> #[trigger] part[byte] == matrix.code(row, 8 * word + 2 * byte) + 16
                * matrix.code(row, 8 * word + 2 * byte + 1),
{
    words_hold_eight_codes(matrix, row, word);
    let code = |place: int| matrix.code(row, 8 * word + place);
    assert(code(0) < 16 && code(1) < 16 && code(2) < 16 && code(3) < 16);
    assert(code(4) < 16 && code(5) < 16 && code(6) < 16 && code(7) < 16);
    lemma_digits(
        part,
        matrix.code(row, 8 * word),
        matrix.code(row, 8 * word + 1),
        matrix.code(row, 8 * word + 2),
        matrix.code(row, 8 * word + 3),
        matrix.code(row, 8 * word + 4),
        matrix.code(row, 8 * word + 5),
        matrix.code(row, 8 * word + 6),
        matrix.code(row, 8 * word + 7),
    );
    assert forall|byte: int| 0 <= byte < 4 implies #[trigger] part[byte] == matrix.code(
        row,
        8 * word + 2 * byte,
    ) + 16 * matrix.code(row, 8 * word + 2 * byte + 1) by {
        if byte == 0 {
        } else if byte == 1 {
        } else if byte == 2 {
        } else {
            assert(byte == 3);
        }
    }
}

#[verifier::rlimit(50)]
proof fn lemma_digits(
    part: Seq<u8>,
    c0: nat,
    c1: nat,
    c2: nat,
    c3: nat,
    c4: nat,
    c5: nat,
    c6: nat,
    c7: nat,
)
    requires
        part.len() == 4,
        c0 < 16,
        c1 < 16,
        c2 < 16,
        c3 < 16,
        c4 < 16,
        c5 < 16,
        c6 < 16,
        c7 < 16,
        part[0] + 256 * part[1] + 65536 * part[2] + 16777216 * part[3] == c0 + 0x10 * c1 + 0x100
            * c2 + 0x1000 * c3 + 0x1_0000 * c4 + 0x10_0000 * c5 + 0x100_0000 * c6 + 0x1000_0000
            * c7,
    ensures
        part[0] == c0 + 16 * c1,
        part[1] == c2 + 16 * c3,
        part[2] == c4 + 16 * c5,
        part[3] == c6 + 16 * c7,
{
    let b0 = c0 + 16 * c1;
    let b1 = c2 + 16 * c3;
    let b2 = c4 + 16 * c5;
    let b3 = c6 + 16 * c7;
    let r2 = part[2] + 256 * part[3];
    let s2 = (b2 + 256 * b3) as int;
    let r1 = part[1] + 256 * r2;
    let s1 = b1 as int + 256 * s2;
    lemma_lowest_digit(part[0] as int, r1, b0 as int, s1);
    lemma_lowest_digit(part[1] as int, r2, b1 as int, s2);
    lemma_lowest_digit(part[2] as int, part[3] as int, b2 as int, b3 as int);
}

proof fn lemma_lowest_digit(left: int, left_rest: int, right: int, right_rest: int)
    requires
        0 <= left < 256,
        0 <= right < 256,
        left + 256 * left_rest == right + 256 * right_rest,
    ensures
        left == right,
        left_rest == right_rest,
{
}

/// The members that describe tensors are all but that of the metadata.
pub proof fn all_but_metadata_describe_tensors(
    members: Seq<(Seq<char>, JsonValue)>,
    member: (Seq<char>, JsonValue),
)
    ensures
        tensor_members(members).contains(member) <==> members.contains(member) && member.0
            != "__metadata__"@,
    decreases members.len(),
{
    if members.len() > 0 {
        let fewer = members.drop_last();
        let last = members.last();
        all_but_metadata_describe_tensors(fewer, member);
        let before = tensor_members(fewer);
        let after = tensor_members(members);
        if members.contains(member) {
            let at = choose|i: int| 0 <= i < members.len() && members[i] == member;
            if at < fewer.len() {
                assert(fewer[at] == member);
            }
        }
        if fewer.contains(member) {
            let at = choose|i: int| 0 <= i < fewer.len() && fewer[i] == member;
            assert(members[at] == member);
        }
        assert(members[members.len() - 1] == last);
        if before.contains(member) {
            let at = choose|i: int| 0 <= i < before.len() && before[i] == member;
            assert(after[at] == member);
        }
        if after.contains(member) && !before.contains(member) {
            let at = choose|i: int| 0 <= i < after.len() && after[i] == member;
            if at < before.len() {
                assert(before[at] == member);
            }
            assert(member == last);
        }
        if member == last && last.0 != "__metadata__"@ {
            assert(after[after.len() - 1] == member);
        }
    }
}

/// A vector or a word tensor is loaded just where it is there under its name and
/// its type and its bytes are whole numbers.
pub proof fn typed_data_load_where_they_are_stored(image: SafeTensorImage, name: Seq<char>)
    ensures
        image.bf16_tensor(name) is Ok <==> image.data(name) is Ok && image.tensors[name].dtype
            == "BF16"@ && image.data(name)->Ok_0.len() % 2 == 0,
        image.brain_tensor(name) is Ok <==> image.bf16_tensor(name) is Ok,
        image.u32_tensor(name) is Ok <==> image.data(name) is Ok && image.tensors[name].dtype
            == "U32"@ && image.data(name)->Ok_0.len() % 4 == 0,
{
}

/// A matrix is loaded just where its words, its scales and its biases are, with
/// two dimensions each, as many rows in each of them, and a scale and a bias for
/// each run of 64 columns.
#[verifier::rlimit(50)]
pub proof fn matrices_load_where_their_parts_fit(image: SafeTensorImage, prefix: Seq<char>)
    ensures
        image.quant_tensor(prefix) is Ok <==> {
            let weight = image.tensors[prefix + ".weight"@];
            let scales = image.tensors[prefix + ".scales"@];
            let biases = image.tensors[prefix + ".biases"@];
            &&& image.u32_tensor(prefix + ".weight"@) is Ok
            &&& image.brain_tensor(prefix + ".scales"@) is Ok
            &&& image.brain_tensor(prefix + ".biases"@) is Ok
            &&& weight.shape.len() == 2 && scales.shape.len() == 2
            &&& scales.shape[0] == weight.shape[0]
            &&& 64 * scales.shape[1] >= 8 * weight.shape[1]
            &&& 64 * scales.shape[1] < 8 * weight.shape[1] + 64
            &&& biases.shape == scales.shape
        },
{
}

/// A value is a list of these numbers.
pub open spec fn lists_numbers(value: JsonValue, numbers: Seq<usize>) -> bool {
    match value {
        JsonValue::Items(items) => items.len() == numbers.len() && forall|i: int|
            0 <= i < items.len() ==> (#[trigger] items[i]) is Number && items[i]->unsigned is Some
                && items[i]->unsigned->0 == numbers[i],
        _ => false,
    }
}

proof fn lemma_listed_numbers(value: JsonValue, numbers: Seq<usize>)
    ensures
        lists_numbers(value, numbers) <==> json_sizes(value) == Some(numbers),
{
    if let JsonValue::Items(items) = value {
        if lists_numbers(value, numbers) {
            assert forall|i: int| 0 <= i < items.len() implies (#[trigger] json_size(
                items[i],
            )) is Some by {
                assert(items[i] is Number);
            }
            assert(json_sizes(value)->0 =~= numbers);
        }
        if json_sizes(value) == Some(numbers) {
            assert forall|i: int| 0 <= i < items.len() implies (#[trigger] items[i]) is Number
                && items[i]->unsigned is Some && items[i]->unsigned->0 == numbers[i] by {
                assert(json_size(items[i]) is Some);
                assert(json_sizes(value)->0[i] == json_size(items[i])->0);
            }
        }
    }
}

/// A member that is an object tells a tensor by three members of its own: its
/// type, its dimensions, and where its data begin and end.
pub proof fn members_tell_their_tensor(value: JsonValue, span: TensorSpan)
    requires
        value is Members,
    ensures
        described(value) == Some(span) <==> {
            let shape = json_member(value, "shape"@);
            let offsets = json_member(value, "data_offsets"@);
            &&& json_member(value, "dtype"@) == Some(JsonValue::Text(span.dtype))
            &&& shape is Some && lists_numbers(shape->0, span.shape)
            &&& offsets is Some && lists_numbers(offsets->0, seq![span.start, span.end])
        },
{
    let shape = json_member(value, "shape"@);
    let offsets = json_member(value, "data_offsets"@);
    if shape is Some && offsets is Some {
        lemma_listed_numbers(shape->0, span.shape);
        lemma_listed_numbers(offsets->0, seq![span.start, span.end]);
        if json_sizes(offsets->0) is Some && json_sizes(offsets->0)->0.len() == 2 {
            let numbers = json_sizes(offsets->0)->0;
            assert(numbers =~= seq![numbers[0], numbers[1]]);
        }
        if described(value) == Some(span) {
            assert(json_sizes(offsets->0)->0 =~= seq![span.start, span.end]);
        }
    }
}

} // verus!
