//! Which `tokenizer.json` files can be handed to `tokenizers`: those from which
//! it makes a tokenizer or an error, and whose tokenizer has an outcome for
//! every text and for all ids.

use crate::json::{
    items_of, json_bool, json_member, json_of, json_parsed_bytes, json_unsigned, member,
    members_of, object_members, JsonValue,
};
use crate::pattern::{is_plain, plain_pattern, takes_something, taking_pattern};
use crate::text::{same_text, to_chars};
use vstd::prelude::*;
use vstd::utf8::encode_utf8;

verus! {

/// A walk through a JSON text: whether it stands in a string, behind a
/// backslash there, and how many members of objects it met.
pub struct Walk {
    pub in_text: bool,
    pub escaped: bool,
    pub members: nat,
}

/// A byte further. A member is counted at its colon.
pub open spec fn walk_step(walk: Walk, byte: u8) -> Walk {
    if walk.in_text {
        if walk.escaped {
            Walk { escaped: false, ..walk }
        } else if byte == 0x5c {
            Walk { escaped: true, ..walk }
        } else if byte == 0x22 {
            Walk { in_text: false, ..walk }
        } else {
            walk
        }
    } else if byte == 0x22 {
        Walk { in_text: true, ..walk }
    } else if byte == 0x3a {
        Walk { members: walk.members + 1, ..walk }
    } else {
        walk
    }
}

pub open spec fn walk_through(json: Seq<u8>) -> Walk
    decreases json.len(),
{
    if json.len() == 0 {
        Walk { in_text: false, escaped: false, members: 0 }
    } else {
        walk_step(walk_through(json.drop_last()), json.last())
    }
}

/// How many members a JSON text gives its objects, all of them together. A
/// name that stands twice counts twice.
fn count_written(json: &[u8]) -> (members: usize)
    ensures
        members == walk_through(json@).members,
{
    let mut in_text: bool = false;
    let mut escaped: bool = false;
    let mut members: usize = 0;
    let mut index: usize = 0;
    assert(json@.take(0) =~= Seq::<u8>::empty());
    while index < json.len()
        invariant
            index <= json@.len(),
            json@.len() == json.len(),
            members <= index,
            walk_through(json@.take(index as int)) == (Walk {
                in_text,
                escaped,
                members: members as nat,
            }),
        decreases json@.len() - index,
    {
        let byte: u8 = json[index];
        if in_text {
            if escaped {
                escaped = false;
            } else if byte == 0x5c {
                escaped = true;
            } else if byte == 0x22 {
                in_text = false;
            }
        } else if byte == 0x22 {
            in_text = true;
        } else if byte == 0x3a {
            members = members + 1;
        }
        index = index + 1;
        assert(json@.take(index as int).drop_last() =~= json@.take(index - 1));
        assert(json@.take(index as int).last() == byte);
    }
    assert(json@.take(index as int) =~= json@);
    members
}

/// A count, or the largest that can be held.
pub open spec fn capped(count: nat) -> u128 {
    if count > u128::MAX {
        u128::MAX
    } else {
        count as u128
    }
}

fn capped_sum(left: u128, right: u128) -> (sum: u128)
    ensures
        sum == capped((left + right) as nat),
        forall|more: nat, others: nat|
            left == capped(more) && right == #[trigger] capped(others) ==> sum == #[trigger] capped(
                more + others,
            ),
{
    if left > u128::MAX - right {
        u128::MAX
    } else {
        left + right
    }
}

/// How many members the objects of a value hold, all of them together, down to
/// a depth.
pub open spec fn held_members(value: JsonValue, depth: nat) -> nat
    decreases depth, 0nat,
{
    if depth == 0 {
        0
    } else {
        match value {
            JsonValue::Items(items) => held_by_items(items, (depth - 1) as nat),
            JsonValue::Members(members) => members.len() + held_by_members(
                members,
                (depth - 1) as nat,
            ),
            _ => 0,
        }
    }
}

pub open spec fn held_by_items(items: Seq<JsonValue>, depth: nat) -> nat
    decreases depth, 1nat, items.len(),
{
    if items.len() == 0 {
        0
    } else {
        held_by_items(items.drop_last(), depth) + held_members(items.last(), depth)
    }
}

pub open spec fn held_by_members(members: Seq<(Seq<char>, JsonValue)>, depth: nat) -> nat
    decreases depth, 1nat, members.len(),
{
    if members.len() == 0 {
        0
    } else {
        held_by_members(members.drop_last(), depth) + held_members(members.last().1, depth)
    }
}

fn count_held(value: &serde_json::Value, depth: u32) -> (count: u128)
    ensures
        count == capped(held_members(json_of(*value), depth as nat)),
    decreases depth, 0nat,
{
    if depth == 0 {
        return 0;
    }
    if let Some(items) = value.as_array() {
        return count_held_by_items(items, depth - 1);
    }
    match object_members(value) {
        Some(members) => capped_sum(
            members.len() as u128,
            count_held_by_members(&members, depth - 1),
        ),
        None => 0,
    }
}

fn count_held_by_items(items: &Vec<serde_json::Value>, depth: u32) -> (count: u128)
    ensures
        count == capped(held_by_items(items_of(items@), depth as nat)),
    decreases depth, 1nat,
{
    let ghost inner = items_of(items@);
    let mut count: u128 = 0;
    let mut index: usize = 0;
    assert(inner.take(0) =~= Seq::<JsonValue>::empty());
    while index < items.len()
        invariant
            index <= items@.len(),
            items@.len() == items.len(),
            inner == items_of(items@),
            count == capped(held_by_items(inner.take(index as int), depth as nat)),
        decreases items@.len() - index,
    {
        count = capped_sum(count, count_held(&items[index], depth));
        index = index + 1;
        assert(inner.take(index as int).drop_last() =~= inner.take(index - 1));
    }
    assert(inner.take(index as int) =~= inner);
    count
}

fn count_held_by_members(members: &Vec<(String, serde_json::Value)>, depth: u32) -> (count: u128)
    ensures
        count == capped(held_by_members(members_of(members@), depth as nat)),
    decreases depth, 1nat,
{
    let ghost inner = members_of(members@);
    let mut count: u128 = 0;
    let mut index: usize = 0;
    assert(inner.take(0) =~= Seq::<(Seq<char>, JsonValue)>::empty());
    while index < members.len()
        invariant
            index <= members@.len(),
            members@.len() == members.len(),
            inner == members_of(members@),
            count == capped(held_by_members(inner.take(index as int), depth as nat)),
        decreases members@.len() - index,
    {
        count = capped_sum(count, count_held(&members[index].1, depth));
        index = index + 1;
        assert(inner.take(index as int).drop_last() =~= inner.take(index - 1));
        assert(inner.take(index as int).last() == inner[index - 1]);
    }
    assert(inner.take(index as int) =~= inner);
    count
}

/// A member that is a text.
pub open spec fn text_member(value: JsonValue, key: Seq<char>) -> Option<Seq<char>> {
    match json_member(value, key) {
        Some(JsonValue::Text(text)) => Some(text),
        _ => None,
    }
}

fn read_text<'a>(value: &'a serde_json::Value, key: &str) -> (found: Option<&'a str>)
    ensures
        match found {
            Some(text) => text_member(json_of(*value), key@) == Some(text@),
            None => text_member(json_of(*value), key@) is None,
        },
{
    match member(value, key) {
        Some(inner) => inner.as_str(),
        None => None,
    }
}

/// A member that is an unsigned integer.
pub open spec fn count_member(value: JsonValue, key: Seq<char>) -> Option<u64> {
    match json_member(value, key) {
        Some(inner) => json_unsigned(inner),
        None => None,
    }
}

fn read_count(value: &serde_json::Value, key: &str) -> (found: Option<u64>)
    ensures
        found == count_member(json_of(*value), key@),
{
    match member(value, key) {
        Some(inner) => inner.as_u64(),
        None => None,
    }
}

pub open spec fn has_member(value: JsonValue, key: Seq<char>) -> bool {
    json_member(value, key) is Some
}

fn holds(value: &serde_json::Value, key: &str) -> (yes: bool)
    ensures
        yes == has_member(json_of(*value), key@),
{
    member(value, key).is_some()
}

/// A member that is a text, and not an empty one.
pub open spec fn filled_member(value: JsonValue, key: Seq<char>) -> bool {
    match text_member(value, key) {
        Some(text) => text.len() > 0,
        None => false,
    }
}

fn is_filled(value: &serde_json::Value, key: &str) -> (yes: bool)
    ensures
        yes == filled_member(json_of(*value), key@),
{
    match read_text(value, key) {
        Some(text) => {
            proof {
                reveal_strlit("");
                assert(text@.len() == 0 ==> text@ =~= ""@);
            }
            !same_text(text, "")
        },
        None => false,
    }
}

/// The parts of a tokenizer that may be sequences of themselves.
#[derive(Debug, Clone, Copy, PartialEq, Eq, Structural)]
pub enum Part {
    Normalizer,
    /// A normalizer that leaves something of every text.
    KeepingNormalizer,
    PreTokenizer,
    Decoder,
}

/// The member under which a sequence lists its steps.
pub open spec fn steps_key(part: Part) -> Seq<char> {
    match part {
        Part::Normalizer => "normalizers"@,
        Part::KeepingNormalizer => "normalizers"@,
        Part::PreTokenizer => "pretokenizers"@,
        Part::Decoder => "decoders"@,
    }
}

fn steps_name(part: Part) -> (key: &'static str)
    ensures
        key@ == steps_key(part),
{
    match part {
        Part::Normalizer => "normalizers",
        Part::KeepingNormalizer => "normalizers",
        Part::PreTokenizer => "pretokenizers",
        Part::Decoder => "decoders",
    }
}

/// A pattern is left out, is a text that is sought as it stands, or is a plain
/// expression.
pub open spec fn quiet_pattern(value: JsonValue) -> bool {
    match json_member(value, "pattern"@) {
        None => true,
        Some(pattern) => match json_member(pattern, "Regex"@) {
            None => has_member(pattern, "String"@),
            Some(JsonValue::Text(text)) => is_plain(text),
            Some(_) => false,
        },
    }
}

fn pattern_is_quiet(value: &serde_json::Value) -> (yes: bool)
    ensures
        yes == quiet_pattern(json_of(*value)),
{
    let pattern = match member(value, "pattern") {
        None => return true,
        Some(pattern) => pattern,
    };
    match member(pattern, "Regex") {
        None => holds(pattern, "String"),
        Some(inner) => match inner.as_str() {
            Some(text) => plain_pattern(text),
            None => false,
        },
    }
}

/// A pattern that finds no empty text.
pub open spec fn taking_member(value: JsonValue) -> bool {
    match json_member(value, "pattern"@) {
        None => false,
        Some(pattern) => match text_member(pattern, "Regex"@) {
            None => filled_member(pattern, "String"@),
            Some(text) => takes_something(text),
        },
    }
}

fn is_taking(value: &serde_json::Value) -> (yes: bool)
    ensures
        yes == taking_member(json_of(*value)),
{
    match member(value, "pattern") {
        None => false,
        Some(pattern) => match read_text(pattern, "Regex") {
            None => is_filled(pattern, "String"),
            Some(text) => taking_pattern(text),
        },
    }
}

/// A member that is true or false.
pub open spec fn flag_member(value: JsonValue, key: Seq<char>) -> Option<bool> {
    match json_member(value, key) {
        Some(inner) => json_bool(inner),
        None => None,
    }
}

fn read_flag(value: &serde_json::Value, key: &str) -> (flag: Option<bool>)
    ensures
        flag == flag_member(json_of(*value), key@),
{
    match member(value, key) {
        Some(inner) => inner.as_bool(),
        None => None,
    }
}

/// The members that make a normalizer one of Bert's.
pub open spec fn bert_members(value: JsonValue) -> bool {
    &&& flag_member(value, "clean_text"@) is Some
    &&& flag_member(value, "handle_chinese_chars"@) is Some
    &&& flag_member(value, "lowercase"@) is Some
    &&& match json_member(value, "strip_accents"@) {
        None => true,
        Some(JsonValue::Null) => true,
        Some(inner) => json_bool(inner) is Some,
    }
}

fn has_bert_members(value: &serde_json::Value) -> (yes: bool)
    ensures
        yes == bert_members(json_of(*value)),
{
    let accents: bool = match member(value, "strip_accents") {
        None => true,
        Some(inner) => inner.is_null() || inner.as_bool().is_some(),
    };
    accents && read_flag(value, "clean_text").is_some() && read_flag(
        value,
        "handle_chinese_chars",
    ).is_some() && read_flag(value, "lowercase").is_some()
}

/// A normalizer of a kind that gives every character a place in the text, as
/// the steps that follow need it. One that is put in front, or in place of
/// something, has one only where there is something before it: so what is put
/// in front, or replaced, is not empty.
pub open spec fn quiet_normalizer(value: JsonValue) -> bool {
    match text_member(value, "type"@) {
        Some(kind) => {
            ||| kind == "Sequence"@
            ||| kind == "NFC"@
            ||| kind == "NFD"@
            ||| kind == "NFKC"@
            ||| kind == "NFKD"@
            ||| kind == "Lowercase"@
            ||| kind == "Strip"@
            ||| kind == "StripAccents"@
            ||| kind == "Nmt"@
            ||| kind == "ByteLevel"@
            ||| kind == "BertNormalizer"@ && bert_members(value)
            ||| kind == "Prepend"@ && filled_member(value, "prepend"@)
            ||| kind == "Replace"@ && quiet_pattern(value) && taking_member(value)
        },
        None => false,
    }
}

fn normalizer_is_quiet(value: &serde_json::Value) -> (yes: bool)
    ensures
        yes == quiet_normalizer(json_of(*value)),
{
    let kind = match read_text(value, "type") {
        Some(kind) => kind,
        None => return false,
    };
    if same_text(kind, "Sequence") || same_text(kind, "NFC") || same_text(kind, "NFD")
        || same_text(kind, "NFKC") || same_text(kind, "NFKD") || same_text(kind, "Lowercase")
        || same_text(kind, "Strip") || same_text(kind, "StripAccents") || same_text(kind, "Nmt")
        || same_text(kind, "ByteLevel") {
        return true;
    }
    if same_text(kind, "BertNormalizer") && has_bert_members(value) {
        return true;
    }
    if same_text(kind, "Prepend") && is_filled(value, "prepend") {
        return true;
    }
    same_text(kind, "Replace") && pattern_is_quiet(value) && is_taking(value)
}

/// A normalizer of a kind that leaves something of every text.
pub open spec fn keeping_normalizer(value: JsonValue) -> bool {
    match text_member(value, "type"@) {
        Some(kind) => {
            ||| kind == "Sequence"@
            ||| kind == "NFC"@
            ||| kind == "NFD"@
            ||| kind == "NFKC"@
            ||| kind == "NFKD"@
            ||| kind == "Lowercase"@
            ||| kind == "ByteLevel"@
            ||| kind == "Prepend"@
            ||| kind == "Replace"@ && filled_member(value, "content"@)
        },
        None => false,
    }
}

fn normalizer_is_keeping(value: &serde_json::Value) -> (yes: bool)
    ensures
        yes == keeping_normalizer(json_of(*value)),
{
    let kind = match read_text(value, "type") {
        Some(kind) => kind,
        None => return false,
    };
    if same_text(kind, "Sequence") || same_text(kind, "NFC") || same_text(kind, "NFD")
        || same_text(kind, "NFKC") || same_text(kind, "NFKD") || same_text(kind, "Lowercase")
        || same_text(kind, "ByteLevel") || same_text(kind, "Prepend") {
        return true;
    }
    same_text(kind, "Replace") && is_filled(value, "content")
}

/// A step by itself gives an outcome for every text:
/// - a normalizer as above;
/// - a pre-tokenizer that does not cut into pieces of no length, and by a plain
///   pattern, if by one;
/// - a decoder that strips nothing from the end of a token, where a token may
///   be too short, that does not count down from no token at all, as the one
///   with a suffix does, and that replaces by a plain pattern, if by one.
pub open spec fn quiet_step(part: Part, value: JsonValue) -> bool {
    match part {
        Part::Normalizer => quiet_normalizer(value),
        Part::KeepingNormalizer => keeping_normalizer(value),
        Part::PreTokenizer => quiet_pattern(value) && match json_member(value, "length"@) {
            Some(length) => json_unsigned(length) is Some && json_unsigned(length)->0 > 0,
            None => true,
        },
        Part::Decoder => quiet_pattern(value) && !has_member(value, "suffix"@) && match json_member(
            value,
            "stop"@,
        ) {
            Some(stop) => json_unsigned(stop) == Some(0u64),
            None => true,
        },
    }
}

fn step_is_quiet(part: Part, value: &serde_json::Value) -> (yes: bool)
    ensures
        yes == quiet_step(part, json_of(*value)),
{
    match part {
        Part::Normalizer => normalizer_is_quiet(value),
        Part::KeepingNormalizer => normalizer_is_keeping(value),
        Part::PreTokenizer => pattern_is_quiet(value) && match member(value, "length") {
            Some(length) => match length.as_u64() {
                Some(length) => length > 0,
                None => false,
            },
            None => true,
        },
        Part::Decoder => pattern_is_quiet(value) && !holds(value, "suffix") && match member(
            value,
            "stop",
        ) {
            Some(stop) => match stop.as_u64() {
                Some(stop) => stop == 0,
                None => false,
            },
            None => true,
        },
    }
}

/// A part is null, or an object that is quiet by itself and all of whose steps
/// are. Steps may be nested `depth` deep.
pub open spec fn quiet_part(part: Part, value: JsonValue, depth: nat) -> bool
    decreases depth, 1int,
{
    match value {
        JsonValue::Null => true,
        JsonValue::Members(_) => depth > 0 && quiet_step(part, value) && match json_member(
            value,
            steps_key(part),
        ) {
            None => true,
            Some(JsonValue::Items(steps)) => quiet_parts(part, steps, (depth - 1) as nat),
            Some(_) => false,
        },
        _ => false,
    }
}

pub open spec fn quiet_parts(part: Part, steps: Seq<JsonValue>, depth: nat) -> bool
    decreases depth, 2int,
{
    forall|i: int| 0 <= i < steps.len() ==> quiet_part(part, #[trigger] steps[i], depth)
}

#[verifier::loop_isolation(false)]
fn part_is_quiet(part: Part, value: &serde_json::Value, depth: u32) -> (yes: bool)
    ensures
        yes == quiet_part(part, json_of(*value), depth as nat),
    decreases depth,
{
    if value.is_null() {
        return true;
    }
    if !value.is_object() || depth == 0 || !step_is_quiet(part, value) {
        return false;
    }
    let listed = match member(value, steps_name(part)) {
        None => return true,
        Some(listed) => listed,
    };
    let steps = match listed.as_array() {
        None => return false,
        Some(steps) => steps,
    };
    let ghost inner = items_of(steps@);
    let mut index: usize = 0;
    while index < steps.len()
        invariant
            index <= steps@.len() == inner.len(),
            forall|i: int|
                0 <= i < index ==> quiet_part(part, #[trigger] inner[i], (depth - 1) as nat),
        decreases steps@.len() - index,
    {
        if !part_is_quiet(part, &steps[index], (depth - 1) as u32) {
            assert(!quiet_part(part, inner[index as int], (depth - 1) as nat));
            return false;
        }
        index = index + 1;
    }
    true
}

/// The deepest nesting that the parser lets through.
pub open spec fn deepest() -> nat {
    128
}

/// A part that a file may leave out.
pub open spec fn quiet_part_at(part: Part, file: JsonValue, key: Seq<char>) -> bool {
    match json_member(file, key) {
        Some(value) => quiet_part(part, value, deepest()),
        None => true,
    }
}

fn part_at_is_quiet(part: Part, file: &serde_json::Value, key: &str) -> (yes: bool)
    ensures
        yes == quiet_part_at(part, json_of(*file), key@),
{
    match member(file, key) {
        Some(value) => part_is_quiet(part, value, 128),
        None => true,
    }
}

/// A piece of a template: of the text it is given it takes the first sequence,
/// and a special token is one of the template's own.
pub open spec fn quiet_piece(piece: JsonValue, tokens: JsonValue) -> bool {
    &&& match json_member(piece, "Sequence"@) {
        Some(taken) => text_member(taken, "id"@) == Some("A"@),
        None => true,
    }
    &&& match json_member(piece, "SpecialToken"@) {
        Some(token) => match text_member(token, "id"@) {
            Some(id) => has_member(tokens, id),
            None => false,
        },
        None => true,
    }
}

fn piece_is_quiet(piece: &serde_json::Value, tokens: &serde_json::Value) -> (yes: bool)
    ensures
        yes == quiet_piece(json_of(*piece), json_of(*tokens)),
{
    let takes_first: bool = match member(piece, "Sequence") {
        Some(taken) => match read_text(taken, "id") {
            Some(id) => same_text(id, "A"),
            None => false,
        },
        None => true,
    };
    let owns_token: bool = match member(piece, "SpecialToken") {
        Some(token) => match read_text(token, "id") {
            Some(id) => holds(tokens, id),
            None => false,
        },
        None => true,
    };
    takes_first && owns_token
}

pub open spec fn quiet_pieces(pieces: Seq<JsonValue>, tokens: JsonValue) -> bool {
    forall|i: int| 0 <= i < pieces.len() ==> quiet_piece(#[trigger] pieces[i], tokens)
}

/// The special tokens of a template: objects, each with as many ids as tokens.
pub open spec fn special_entry(entry: JsonValue) -> bool {
    match (json_member(entry, "ids"@), json_member(entry, "tokens"@)) {
        (Some(JsonValue::Items(ids)), Some(JsonValue::Items(tokens))) => ids.len() == tokens.len(),
        _ => false,
    }
}

fn is_special_entry(entry: &serde_json::Value) -> (yes: bool)
    ensures
        yes == special_entry(json_of(*entry)),
{
    match (member(entry, "ids"), member(entry, "tokens")) {
        (Some(ids), Some(tokens)) => match (ids.as_array(), tokens.as_array()) {
            (Some(ids), Some(tokens)) => ids.len() == tokens.len(),
            _ => false,
        },
        _ => false,
    }
}

pub open spec fn special_entries(members: Seq<(Seq<char>, JsonValue)>) -> bool {
    forall|i: int| 0 <= i < members.len() ==> special_entry(#[trigger] members[i].1)
}

#[verifier::loop_isolation(false)]
fn are_special_entries(tokens: &serde_json::Value) -> (yes: bool)
    ensures
        yes == match json_of(*tokens) {
            JsonValue::Members(members) => special_entries(members),
            _ => false,
        },
{
    let members = match object_members(tokens) {
        Some(members) => members,
        None => return false,
    };
    let ghost inner = members_of(members@);
    let mut index: usize = 0;
    while index < members.len()
        invariant
            index <= members@.len() == inner.len(),
            forall|i: int| 0 <= i < index ==> special_entry(#[trigger] inner[i].1),
        decreases members@.len() - index,
    {
        if !is_special_entry(&members[index].1) {
            assert(!special_entry(inner[index as int].1));
            return false;
        }
        index = index + 1;
    }
    true
}

/// A processor with special tokens is a template, each of whose pieces for one
/// text is quiet.
pub open spec fn quiet_template(value: JsonValue) -> bool {
    match json_member(value, "special_tokens"@) {
        None => true,
        Some(tokens) => match (tokens, json_member(value, "single"@)) {
            (
                JsonValue::Members(members),
                Some(JsonValue::Items(pieces)),
            ) => special_entries(members) && quiet_pieces(pieces, tokens),
            _ => false,
        },
    }
}

#[verifier::loop_isolation(false)]
fn template_is_quiet(value: &serde_json::Value) -> (yes: bool)
    ensures
        yes == quiet_template(json_of(*value)),
{
    let tokens = match member(value, "special_tokens") {
        None => return true,
        Some(tokens) => tokens,
    };
    if !are_special_entries(tokens) {
        return false;
    }
    let single = match member(value, "single") {
        None => return false,
        Some(single) => single,
    };
    let pieces = match single.as_array() {
        None => return false,
        Some(pieces) => pieces,
    };
    let ghost inner = items_of(pieces@);
    let mut index: usize = 0;
    while index < pieces.len()
        invariant
            index <= pieces@.len() == inner.len(),
            forall|i: int| 0 <= i < index ==> quiet_piece(#[trigger] inner[i], json_of(*tokens)),
        decreases pieces@.len() - index,
    {
        if !piece_is_quiet(&pieces[index], tokens) {
            assert(!quiet_piece(inner[index as int], json_of(*tokens)));
            return false;
        }
        index = index + 1;
    }
    true
}

/// A step of a sequence of processors: no sequence of its own.
pub open spec fn quiet_listed(value: JsonValue) -> bool {
    value is Members && !has_member(value, "processors"@) && quiet_template(value)
}

/// A processor: null, or an object whose own template and whose listed steps
/// are quiet. A template makes several parts of one text, so one is all that a
/// sequence may hold.
pub open spec fn quiet_processor(value: JsonValue) -> bool {
    match value {
        JsonValue::Null => true,
        JsonValue::Members(_) => quiet_template(value) && match json_member(
            value,
            "processors"@,
        ) {
            None => true,
            Some(JsonValue::Items(steps)) => {
                &&& forall|i: int| 0 <= i < steps.len() ==> quiet_listed(#[trigger] steps[i])
                &&& forall|i: int, j: int|
                    0 <= i < j < steps.len() ==> !(has_member(
                        #[trigger] steps[i],
                        "special_tokens"@,
                    ) && has_member(#[trigger] steps[j], "special_tokens"@))
            },
            Some(_) => false,
        },
        _ => false,
    }
}

#[verifier::loop_isolation(false)]
fn processor_is_quiet(value: &serde_json::Value) -> (yes: bool)
    ensures
        yes == quiet_processor(json_of(*value)),
{
    if value.is_null() {
        return true;
    }
    if !value.is_object() || !template_is_quiet(value) {
        return false;
    }
    let listed = match member(value, "processors") {
        None => return true,
        Some(listed) => listed,
    };
    let steps = match listed.as_array() {
        None => return false,
        Some(steps) => steps,
    };
    let ghost inner = items_of(steps@);
    let mut template: Option<usize> = None;
    let mut index: usize = 0;
    while index < steps.len()
        invariant
            index <= steps@.len(),
            steps@.len() == steps.len(),
            inner == items_of(steps@),
            forall|i: int| 0 <= i < index ==> quiet_listed(#[trigger] inner[i]),
            match template {
                Some(at) => at < index && has_member(inner[at as int], "special_tokens"@)
                    && forall|i: int|
                    0 <= i < index && i != at ==> !has_member(
                        #[trigger] inner[i],
                        "special_tokens"@,
                    ),
                None => forall|i: int|
                    0 <= i < index ==> !has_member(#[trigger] inner[i], "special_tokens"@),
            },
        decreases steps@.len() - index,
    {
        let step = &steps[index];
        assert(json_of(*step) == inner[index as int]);
        if !step.is_object() || holds(step, "processors") || !template_is_quiet(step) {
            assert(!quiet_listed(inner[index as int]));
            return false;
        }
        if holds(step, "special_tokens") {
            if let Some(at) = template {
                assert(has_member(inner[at as int], "special_tokens"@) && has_member(
                    inner[index as int],
                    "special_tokens"@,
                ));
                return false;
            }
            template = Some(index);
        }
        index = index + 1;
    }
    true
}

/// How many tokens a piece of a template adds to a text.
pub open spec fn piece_adds(piece: JsonValue, tokens: JsonValue) -> nat {
    match json_member(piece, "SpecialToken"@) {
        Some(token) => match text_member(token, "id"@) {
            Some(id) => match json_member(tokens, id) {
                Some(entry) => match json_member(entry, "ids"@) {
                    Some(JsonValue::Items(ids)) => ids.len(),
                    _ => 0,
                },
                None => 0,
            },
            None => 0,
        },
        None => 0,
    }
}

fn count_piece(piece: &serde_json::Value, tokens: &serde_json::Value) -> (count: u128)
    ensures
        count == capped(piece_adds(json_of(*piece), json_of(*tokens))),
{
    let token = match member(piece, "SpecialToken") {
        Some(token) => token,
        None => return 0,
    };
    let id = match read_text(token, "id") {
        Some(id) => id,
        None => return 0,
    };
    let entry = match member(tokens, id) {
        Some(entry) => entry,
        None => return 0,
    };
    match member(entry, "ids") {
        Some(listed) => match listed.as_array() {
            Some(ids) => ids.len() as u128,
            None => 0,
        },
        None => 0,
    }
}

pub open spec fn pieces_add(pieces: Seq<JsonValue>, tokens: JsonValue) -> nat
    decreases pieces.len(),
{
    if pieces.len() == 0 {
        0
    } else {
        pieces_add(pieces.drop_last(), tokens) + piece_adds(pieces.last(), tokens)
    }
}

fn count_pieces(pieces: &Vec<serde_json::Value>, tokens: &serde_json::Value) -> (count: u128)
    ensures
        count == capped(pieces_add(items_of(pieces@), json_of(*tokens))),
{
    let ghost inner = items_of(pieces@);
    let mut count: u128 = 0;
    let mut index: usize = 0;
    assert(inner.take(0) =~= Seq::<JsonValue>::empty());
    while index < pieces.len()
        invariant
            index <= pieces@.len(),
            pieces@.len() == pieces.len(),
            inner == items_of(pieces@),
            count == capped(pieces_add(inner.take(index as int), json_of(*tokens))),
        decreases pieces@.len() - index,
    {
        count = capped_sum(count, count_piece(&pieces[index], tokens));
        index = index + 1;
        assert(inner.take(index as int).drop_last() =~= inner.take(index - 1));
    }
    assert(inner.take(index as int) =~= inner);
    count
}

/// How many tokens a processor adds to a text, at most: two where it has a
/// first and a last token of its own, and those of its template.
pub open spec fn step_adds(value: JsonValue) -> nat {
    let ends: nat = if has_member(value, "sep"@) && has_member(value, "cls"@) {
        2
    } else {
        0
    };
    let template: nat = match json_member(value, "special_tokens"@) {
        Some(tokens) => match json_member(value, "single"@) {
            Some(JsonValue::Items(pieces)) => pieces_add(pieces, tokens),
            _ => 0,
        },
        None => 0,
    };
    ends + template
}

fn count_step(value: &serde_json::Value) -> (count: u128)
    ensures
        count == capped(step_adds(json_of(*value))),
{
    let ends: u128 = if holds(value, "sep") && holds(value, "cls") {
        2
    } else {
        0
    };
    let template: u128 = match member(value, "special_tokens") {
        Some(tokens) => match member(value, "single") {
            Some(single) => match single.as_array() {
                Some(pieces) => count_pieces(pieces, tokens),
                None => 0,
            },
            None => 0,
        },
        None => 0,
    };
    assert(ends == capped(ends as nat));
    capped_sum(ends, template)
}

pub open spec fn steps_add(steps: Seq<JsonValue>) -> nat
    decreases steps.len(),
{
    if steps.len() == 0 {
        0
    } else {
        steps_add(steps.drop_last()) + step_adds(steps.last())
    }
}

fn count_steps(steps: &Vec<serde_json::Value>) -> (count: u128)
    ensures
        count == capped(steps_add(items_of(steps@))),
{
    let ghost inner = items_of(steps@);
    let mut count: u128 = 0;
    let mut index: usize = 0;
    assert(inner.take(0) =~= Seq::<JsonValue>::empty());
    while index < steps.len()
        invariant
            index <= steps@.len(),
            steps@.len() == steps.len(),
            inner == items_of(steps@),
            count == capped(steps_add(inner.take(index as int))),
        decreases steps@.len() - index,
    {
        count = capped_sum(count, count_step(&steps[index]));
        index = index + 1;
        assert(inner.take(index as int).drop_last() =~= inner.take(index - 1));
    }
    assert(inner.take(index as int) =~= inner);
    count
}

/// How many tokens the processor of a file adds to a text, at most.
pub open spec fn file_adds(file: JsonValue) -> nat {
    match json_member(file, "post_processor"@) {
        Some(value) => step_adds(value) + match json_member(value, "processors"@) {
            Some(JsonValue::Items(steps)) => steps_add(steps),
            _ => 0,
        },
        None => 0,
    }
}

fn count_file(file: &serde_json::Value) -> (count: u128)
    ensures
        count == capped(file_adds(json_of(*file))),
{
    let value = match member(file, "post_processor") {
        Some(value) => value,
        None => return 0,
    };
    let own: u128 = count_step(value);
    let listed: u128 = match member(value, "processors") {
        Some(listed) => match listed.as_array() {
            Some(steps) => count_steps(steps),
            None => 0,
        },
        None => 0,
    };
    capped_sum(own, listed)
}

/// Where texts are cut to a length, what a processor adds and the stride from
/// one piece to the next leave something of it.
pub open spec fn quiet_truncation(file: JsonValue) -> bool {
    match json_member(file, "truncation"@) {
        None => true,
        Some(JsonValue::Null) => true,
        Some(value) => match (count_member(value, "max_length"@), count_member(value, "stride"@)) {
            (Some(length), Some(stride)) => file_adds(file) + stride < length,
            _ => false,
        },
    }
}

fn truncation_is_quiet(file: &serde_json::Value) -> (yes: bool)
    ensures
        yes == quiet_truncation(json_of(*file)),
{
    let value = match member(file, "truncation") {
        None => return true,
        Some(value) => value,
    };
    if value.is_null() {
        return true;
    }
    match (read_count(value, "max_length"), read_count(value, "stride")) {
        (Some(length), Some(stride)) => {
            let added: u128 = count_file(file);
            added < length as u128 && (stride as u128) < length as u128 - added
        },
        _ => false,
    }
}

/// Whether a count is left out or below four billion, so that lengths that are
/// rounded up to it can be counted.
pub open spec fn small_count(value: Option<JsonValue>) -> bool {
    match value {
        None => true,
        Some(JsonValue::Null) => true,
        Some(value) => json_unsigned(value) is Some && json_unsigned(value)->0 <= u32::MAX,
    }
}

fn count_is_small(value: Option<&serde_json::Value>) -> (yes: bool)
    ensures
        yes == small_count(
            match value {
                Some(value) => Some(json_of(*value)),
                None => None,
            },
        ),
{
    match value {
        None => true,
        Some(value) => if value.is_null() {
            true
        } else {
            match value.as_u64() {
                Some(count) => count <= u32::MAX as u64,
                None => false,
            }
        },
    }
}

/// Where texts are padded, to the longest or to a fixed length, the length can
/// be counted.
pub open spec fn quiet_padding(file: JsonValue) -> bool {
    match json_member(file, "padding"@) {
        None => true,
        Some(JsonValue::Null) => true,
        Some(value) => {
            &&& small_count(json_member(value, "pad_to_multiple_of"@))
            &&& match json_member(value, "strategy"@) {
                Some(JsonValue::Text(_)) => true,
                Some(strategy) => has_member(strategy, "Fixed"@) && small_count(
                    json_member(strategy, "Fixed"@),
                ),
                None => false,
            }
        },
    }
}

fn padding_is_quiet(file: &serde_json::Value) -> (yes: bool)
    ensures
        yes == quiet_padding(json_of(*file)),
{
    let value = match member(file, "padding") {
        None => return true,
        Some(value) => value,
    };
    if value.is_null() {
        return true;
    }
    let counted: bool = count_is_small(member(value, "pad_to_multiple_of"));
    match member(value, "strategy") {
        Some(strategy) => if strategy.as_str().is_some() {
            counted
        } else {
            counted && holds(strategy, "Fixed") && count_is_small(member(strategy, "Fixed"))
        },
        None => false,
    }
}

/// Whether a text holds a visible sign of ASCII.
pub open spec fn has_sign(text: Seq<char>) -> bool {
    exists|i: int| 0 <= i < text.len() && '!' <= #[trigger] text[i] <= '~'
}

fn holds_sign(text: &str) -> (yes: bool)
    ensures
        yes == has_sign(text@),
{
    let chars: Vec<char> = to_chars(text);
    let mut index: usize = 0;
    while index < chars.len()
        invariant
            chars@ == text@,
            chars@.len() == chars.len(),
            index <= chars@.len(),
            forall|i: int| 0 <= i < index ==> !('!' <= #[trigger] text@[i] <= '~'),
        decreases chars@.len() - index,
    {
        let ch: char = chars[index];
        if '!' <= ch && ch <= '~' {
            assert('!' <= text@[index as int] <= '~');
            return true;
        }
        index = index + 1;
    }
    false
}

/// An added token. One that is sought in the normalized text is there only
/// where the normalizer leaves something of it, as `keeping` says. One that
/// takes the space before it holds a sign, as it stands, where another may
/// have taken the space behind itself, as `stripped` says.
pub open spec fn quiet_added_token(token: JsonValue, keeping: bool, stripped: bool) -> bool {
    let plain = flag_member(token, "normalized"@) == Some(false);
    &&& plain || keeping
    &&& !stripped || flag_member(token, "lstrip"@) == Some(false) || (plain && match text_member(
        token,
        "content"@,
    ) {
        Some(content) => has_sign(content),
        None => false,
    })
}

fn added_token_is_quiet(token: &serde_json::Value, keeping: bool, stripped: bool) -> (yes: bool)
    ensures
        yes == quiet_added_token(json_of(*token), keeping, stripped),
{
    let plain: bool = match read_flag(token, "normalized") {
        Some(normalized) => !normalized,
        None => false,
    };
    let tight: bool = match read_flag(token, "lstrip") {
        Some(lstrip) => !lstrip,
        None => false,
    };
    (plain || keeping) && (!stripped || tight || (plain && match read_text(token, "content") {
        Some(content) => holds_sign(content),
        None => false,
    }))
}

/// Whether one of the tokens may take the space behind it.
pub open spec fn some_stripped(tokens: Seq<JsonValue>) -> bool {
    exists|i: int|
        0 <= i < tokens.len() && flag_member(#[trigger] tokens[i], "rstrip"@) != Some(false)
}

fn is_some_stripped(tokens: &Vec<serde_json::Value>) -> (yes: bool)
    ensures
        yes == some_stripped(items_of(tokens@)),
{
    let ghost inner = items_of(tokens@);
    let mut index: usize = 0;
    while index < tokens.len()
        invariant
            index <= tokens@.len(),
            tokens@.len() == tokens.len(),
            inner == items_of(tokens@),
            forall|i: int|
                0 <= i < index ==> flag_member(#[trigger] inner[i], "rstrip"@) == Some(false),
        decreases tokens@.len() - index,
    {
        assert(json_of(tokens@[index as int]) == inner[index as int]);
        match read_flag(&tokens[index], "rstrip") {
            Some(rstrip) => if rstrip {
                return true;
            },
            None => return true,
        }
        index = index + 1;
    }
    false
}

pub open spec fn quiet_tokens(tokens: Seq<JsonValue>, keeping: bool) -> bool {
    forall|i: int|
        0 <= i < tokens.len() ==> quiet_added_token(
            #[trigger] tokens[i],
            keeping,
            some_stripped(tokens),
        )
}

/// The added tokens of a file, beside its normalizer.
pub open spec fn quiet_added_tokens(file: JsonValue) -> bool {
    match json_member(file, "added_tokens"@) {
        Some(JsonValue::Items(tokens)) => quiet_tokens(
            tokens,
            quiet_part_at(Part::KeepingNormalizer, file, "normalizer"@),
        ),
        _ => true,
    }
}

#[verifier::loop_isolation(false)]
fn added_tokens_are_quiet(file: &serde_json::Value) -> (yes: bool)
    ensures
        yes == quiet_added_tokens(json_of(*file)),
{
    let listed = match member(file, "added_tokens") {
        Some(listed) => listed,
        None => return true,
    };
    let tokens = match listed.as_array() {
        Some(tokens) => tokens,
        None => return true,
    };
    let ghost inner = items_of(tokens@);
    let keeping: bool = part_at_is_quiet(Part::KeepingNormalizer, file, "normalizer");
    let stripped: bool = is_some_stripped(tokens);
    let mut index: usize = 0;
    while index < tokens.len()
        invariant
            index <= tokens@.len() == inner.len(),
            forall|i: int|
                0 <= i < index ==> quiet_added_token(#[trigger] inner[i], keeping, stripped),
        decreases tokens@.len() - index,
    {
        if !added_token_is_quiet(&tokens[index], keeping, stripped) {
            assert(!quiet_added_token(inner[index as int], keeping, stripped));
            return false;
        }
        index = index + 1;
    }
    true
}

/// The bytes of the longest name.
pub open spec fn longest_name(members: Seq<(Seq<char>, JsonValue)>) -> nat
    decreases members.len(),
{
    if members.len() == 0 {
        0
    } else {
        let before = longest_name(members.drop_last());
        let own = encode_utf8(members.last().0).len();
        if own > before {
            own
        } else {
            before
        }
    }
}

fn count_longest_name(members: &Vec<(String, serde_json::Value)>) -> (longest: usize)
    ensures
        longest == longest_name(members_of(members@)),
{
    let ghost inner = members_of(members@);
    let mut longest: usize = 0;
    let mut index: usize = 0;
    assert(inner.take(0) =~= Seq::<(Seq<char>, JsonValue)>::empty());
    while index < members.len()
        invariant
            index <= members@.len(),
            members@.len() == members.len(),
            inner == members_of(members@),
            longest == longest_name(inner.take(index as int)),
        decreases members@.len() - index,
    {
        let own: usize = members[index].0.as_str().as_bytes().len();
        if own > longest {
            longest = own;
        }
        index = index + 1;
        assert(inner.take(index as int).drop_last() =~= inner.take(index - 1));
        assert(inner.take(index as int).last() == inner[index - 1]);
    }
    assert(inner.take(index as int) =~= inner);
    longest
}

/// A merge is no longer than the longest token: two tokens with a space
/// between, or a pair.
pub open spec fn merge_fits(merge: JsonValue, longest: nat) -> bool {
    match merge {
        JsonValue::Text(text) => encode_utf8(text).len() <= longest + 1,
        JsonValue::Items(pair) => {
            &&& pair.len() == 2
            &&& pair[0] is Text
            &&& pair[1] is Text
            &&& encode_utf8(pair[0]->Text_0).len() + encode_utf8(pair[1]->Text_0).len() <= longest
        },
        _ => false,
    }
}

fn does_merge_fit(merge: &serde_json::Value, longest: usize) -> (yes: bool)
    ensures
        yes == merge_fits(json_of(*merge), longest as nat),
{
    if let Some(text) = merge.as_str() {
        let length: usize = text.as_bytes().len();
        return length == 0 || length - 1 <= longest;
    }
    match merge.as_array() {
        Some(pair) => {
            if pair.len() != 2 {
                return false;
            }
            assert(items_of(pair@)[0] == json_of(pair@[0]));
            assert(items_of(pair@)[1] == json_of(pair@[1]));
            match (pair[0].as_str(), pair[1].as_str()) {
                (Some(left), Some(right)) => {
                    let first: usize = left.as_bytes().len();
                    let second: usize = right.as_bytes().len();
                    first <= longest && second <= longest - first
                },
                _ => false,
            }
        },
        None => false,
    }
}

pub open spec fn merges_fit(merges: Seq<JsonValue>, longest: nat) -> bool {
    forall|i: int| 0 <= i < merges.len() ==> merge_fits(#[trigger] merges[i], longest)
}

/// A model that merges pairs: its tokens have no prefix inside a word, and no
/// merge is longer than the longest token.
pub open spec fn quiet_merges(model: JsonValue) -> bool {
    &&& match json_member(model, "continuing_subword_prefix"@) {
        None => true,
        Some(JsonValue::Null) => true,
        Some(JsonValue::Text(prefix)) => prefix.len() == 0,
        Some(_) => false,
    }
    &&& match (json_member(model, "vocab"@), json_member(model, "merges"@)) {
        (Some(JsonValue::Members(vocab)), Some(JsonValue::Items(merges))) => merges_fit(
            merges,
            longest_name(vocab),
        ),
        _ => false,
    }
}

#[verifier::loop_isolation(false)]
fn merges_are_quiet(model: &serde_json::Value) -> (yes: bool)
    ensures
        yes == quiet_merges(json_of(*model)),
{
    if let Some(prefix) = member(model, "continuing_subword_prefix") {
        if !prefix.is_null() {
            match prefix.as_str() {
                Some(text) => {
                    proof {
                        reveal_strlit("");
                    }
                    if !same_text(text, "") {
                        assert(text@.len() == 0 ==> text@ =~= ""@);
                        return false;
                    }
                },
                None => return false,
            }
        }
    }
    let (vocab, merges) = match (member(model, "vocab"), member(model, "merges")) {
        (Some(vocab), Some(merges)) => (vocab, merges),
        _ => return false,
    };
    let (names, merges) = match (object_members(vocab), merges.as_array()) {
        (Some(names), Some(merges)) => (names, merges),
        _ => return false,
    };
    let ghost inner = items_of(merges@);
    let longest: usize = count_longest_name(&names);
    let mut index: usize = 0;
    while index < merges.len()
        invariant
            index <= merges@.len() == inner.len(),
            forall|i: int| 0 <= i < index ==> merge_fits(#[trigger] inner[i], longest as nat),
        decreases merges@.len() - index,
    {
        if !does_merge_fit(&merges[index], longest) {
            assert(!merge_fits(inner[index as int], longest as nat));
            return false;
        }
        index = index + 1;
    }
    true
}

/// The longest token that a model which keeps its tokens letter under letter
/// may have, in bytes: it takes them apart one letter within another.
pub open spec fn deepest_token() -> nat {
    256
}

/// A token with its score.
pub open spec fn scored_token(entry: JsonValue) -> bool {
    match entry {
        JsonValue::Items(pair) => pair.len() == 2 && pair[0] is Text && encode_utf8(
            pair[0]->Text_0,
        ).len() <= deepest_token(),
        _ => false,
    }
}

fn is_scored_token(entry: &serde_json::Value) -> (yes: bool)
    ensures
        yes == scored_token(json_of(*entry)),
{
    match entry.as_array() {
        Some(pair) => {
            if pair.len() != 2 {
                return false;
            }
            assert(items_of(pair@)[0] == json_of(pair@[0]));
            match pair[0].as_str() {
                Some(text) => text.as_bytes().len() <= 256,
                None => false,
            }
        },
        None => false,
    }
}

pub open spec fn scored_tokens(entries: Seq<JsonValue>) -> bool {
    forall|i: int| 0 <= i < entries.len() ==> scored_token(#[trigger] entries[i])
}

/// A vocabulary of scored tokens.
pub open spec fn quiet_scores(model: JsonValue) -> bool {
    match json_member(model, "vocab"@) {
        Some(JsonValue::Items(entries)) => scored_tokens(entries),
        _ => false,
    }
}

#[verifier::loop_isolation(false)]
fn scores_are_quiet(model: &serde_json::Value) -> (yes: bool)
    ensures
        yes == quiet_scores(json_of(*model)),
{
    let vocab = match member(model, "vocab") {
        Some(vocab) => vocab,
        None => return false,
    };
    let entries = match vocab.as_array() {
        Some(entries) => entries,
        None => return false,
    };
    let ghost inner = items_of(entries@);
    let mut index: usize = 0;
    while index < entries.len()
        invariant
            index <= entries@.len() == inner.len(),
            forall|i: int| 0 <= i < index ==> scored_token(#[trigger] inner[i]),
        decreases entries@.len() - index,
    {
        if !is_scored_token(&entries[index]) {
            assert(!scored_token(inner[index as int]));
            return false;
        }
        index = index + 1;
    }
    true
}

/// A model gives an outcome for every text, by its kind. One that does not
/// name its kind is tried as one of each.
pub open spec fn quiet_model(file: JsonValue) -> bool {
    match json_member(file, "model"@) {
        None => true,
        Some(model) => match json_member(model, "type"@) {
            Some(JsonValue::Text(kind)) => {
                ||| kind == "WordLevel"@
                ||| kind == "WordPiece"@
                ||| kind == "BPE"@ && quiet_merges(model)
                ||| kind == "Unigram"@ && quiet_scores(model)
            },
            Some(_) => false,
            None => {
                &&& has_member(model, "merges"@) ==> quiet_merges(model)
                &&& match json_member(model, "vocab"@) {
                    Some(JsonValue::Items(_)) => quiet_scores(model),
                    _ => true,
                }
            },
        },
    }
}

fn model_is_quiet(file: &serde_json::Value) -> (yes: bool)
    ensures
        yes == quiet_model(json_of(*file)),
{
    let model = match member(file, "model") {
        None => return true,
        Some(model) => model,
    };
    match member(model, "type") {
        Some(named) => match named.as_str() {
            Some(kind) => same_text(kind, "WordLevel") || same_text(kind, "WordPiece") || (
            same_text(kind, "BPE") && merges_are_quiet(model)) || (same_text(kind, "Unigram")
                && scores_are_quiet(model)),
            None => false,
        },
        None => {
            let merged: bool = !holds(model, "merges") || merges_are_quiet(model);
            let scored: bool = match member(model, "vocab") {
                Some(vocab) => if vocab.as_array().is_some() {
                    scores_are_quiet(model)
                } else {
                    true
                },
                None => true,
            };
            merged && scored
        },
    }
}

/// A file that is no object is refused with an error. In one that is, no object
/// has a name twice, and every part is quiet.
pub open spec fn quiet_file(json: Seq<u8>, file: JsonValue) -> bool {
    match file {
        JsonValue::Members(_) => {
            &&& walk_through(json).members == held_members(file, deepest())
            &&& quiet_part_at(Part::Normalizer, file, "normalizer"@)
            &&& quiet_part_at(Part::PreTokenizer, file, "pre_tokenizer"@)
            &&& quiet_part_at(Part::Decoder, file, "decoder"@)
            &&& match json_member(file, "post_processor"@) {
                Some(value) => quiet_processor(value),
                None => true,
            }
            &&& quiet_truncation(file)
            &&& quiet_padding(file)
            &&& quiet_added_tokens(file)
            &&& quiet_model(file)
        },
        _ => true,
    }
}

/// Whether `tokenizers` makes a tokenizer or an error of the bytes, and
/// whether that tokenizer then gives an outcome for every text and for all
/// ids.
pub open spec fn loads_quietly(json: Seq<u8>) -> bool {
    match json_parsed_bytes(json) {
        Ok(file) => quiet_file(json, file),
        Err(_) => false,
    }
}

/// Whether a file can be handed to `tokenizers`, given the bytes and the value
/// that they hold.
pub(crate) fn file_is_quiet(json: &[u8], file: &serde_json::Value) -> (yes: bool)
    ensures
        yes == quiet_file(json@, json_of(*file)),
{
    match object_members(file) {
        None => true,
        Some(_) => {
            let processed: bool = match member(file, "post_processor") {
                Some(value) => processor_is_quiet(value),
                None => true,
            };
            processed && count_written(json) as u128 == count_held(file, 128) && part_at_is_quiet(
                Part::Normalizer,
                file,
                "normalizer",
            ) && part_at_is_quiet(Part::PreTokenizer, file, "pre_tokenizer") && part_at_is_quiet(
                Part::Decoder,
                file,
                "decoder",
            ) && truncation_is_quiet(file) && padding_is_quiet(file) && added_tokens_are_quiet(file)
                && model_is_quiet(file)
        },
    }
}

} // verus!
