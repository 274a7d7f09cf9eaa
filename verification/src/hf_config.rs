//! The configuration of a Hugging Face checkpoint.

use crate::error::{config_error, config_outcome, TinyAgentError};
use crate::json::{
    double_bits, json_bool, json_double, json_member, json_of, json_parsed, json_unsigned, member,
    parse_json, JsonValue,
};
use crate::text::{cat2, cat3};
use crate::tma::QwenConfig;
use vstd::arithmetic::power2::pow2;
use vstd::prelude::*;
use vstd::utf8::encode_utf8;

verus! {

/// A number that may be given as an unsigned integer, as a double or as both.
#[derive(Debug, Clone, Copy, PartialEq, Eq, Structural)]
pub struct NumberField {
    pub unsigned: Option<u64>,
    pub double: Option<u64>,
}

/// What is read of a `config.json`, each entry where it is there and of the
/// right type. Doubles are given by their bit patterns.
#[derive(Debug, Clone, Copy, PartialEq, Eq, Structural)]
pub struct ConfigFields {
    pub hidden_size: Option<u64>,
    pub intermediate_size: Option<u64>,
    pub num_hidden_layers: Option<u64>,
    pub num_attention_heads: Option<u64>,
    pub num_key_value_heads: Option<u64>,
    pub head_dim: Option<u64>,
    pub vocab_size: Option<u64>,
    pub max_position_embeddings: Option<u64>,
    pub rope_theta: Option<NumberField>,
    pub rms_norm_eps: Option<u64>,
    pub tie_word_embeddings: Option<bool>,
}

/// A member that is an unsigned integer.
pub open spec fn unsigned_member(value: JsonValue, key: Seq<char>) -> Option<u64> {
    match json_member(value, key) {
        Some(inner) => json_unsigned(inner),
        None => None,
    }
}

/// The object that holds the model's numbers: the member `text_config`, else
/// the whole.
pub open spec fn config_root(value: JsonValue) -> JsonValue {
    match json_member(value, "text_config"@) {
        Some(inner) => inner,
        None => value,
    }
}

/// The rotary base: the member `rope_theta`, else that of `rope_parameters`.
pub open spec fn rope_value(config: JsonValue) -> Option<JsonValue> {
    match json_member(config, "rope_theta"@) {
        Some(value) => Some(value),
        None => match json_member(config, "rope_parameters"@) {
            Some(parameters) => json_member(parameters, "rope_theta"@),
            None => None,
        },
    }
}

/// What is read of a configuration.
pub open spec fn fields_of(value: JsonValue) -> ConfigFields {
    let config = config_root(value);
    ConfigFields {
        hidden_size: unsigned_member(config, "hidden_size"@),
        intermediate_size: unsigned_member(config, "intermediate_size"@),
        num_hidden_layers: unsigned_member(config, "num_hidden_layers"@),
        num_attention_heads: unsigned_member(config, "num_attention_heads"@),
        num_key_value_heads: unsigned_member(config, "num_key_value_heads"@),
        head_dim: unsigned_member(config, "head_dim"@),
        vocab_size: unsigned_member(config, "vocab_size"@),
        max_position_embeddings: unsigned_member(config, "max_position_embeddings"@),
        rope_theta: match rope_value(config) {
            Some(inner) => Some(
                NumberField { unsigned: json_unsigned(inner), double: json_double(inner) },
            ),
            None => None,
        },
        rms_norm_eps: match json_member(config, "rms_norm_eps"@) {
            Some(inner) => json_double(inner),
            None => None,
        },
        tie_word_embeddings: match json_member(config, "tie_word_embeddings"@) {
            Some(inner) => json_bool(inner),
            None => None,
        },
    }
}

fn read_unsigned(value: &serde_json::Value, key: &str) -> (number: Option<u64>)
    ensures
        number == unsigned_member(json_of(*value), key@),
{
    match member(value, key) {
        Some(inner) => inner.as_u64(),
        None => None,
    }
}

fn read_rope<'a>(config: &'a serde_json::Value) -> (found: Option<&'a serde_json::Value>)
    ensures
        match found {
            Some(inner) => rope_value(json_of(*config)) == Some(json_of(*inner)),
            None => rope_value(json_of(*config)) is None,
        },
{
    match member(config, "rope_theta") {
        Some(inner) => Some(inner),
        None => match member(config, "rope_parameters") {
            Some(parameters) => member(parameters, "rope_theta"),
            None => None,
        },
    }
}

fn read_fields(value: &serde_json::Value) -> (fields: ConfigFields)
    ensures
        fields == fields_of(json_of(*value)),
{
    let config = match member(value, "text_config") {
        Some(inner) => inner,
        None => value,
    };
    ConfigFields {
        hidden_size: read_unsigned(config, "hidden_size"),
        intermediate_size: read_unsigned(config, "intermediate_size"),
        num_hidden_layers: read_unsigned(config, "num_hidden_layers"),
        num_attention_heads: read_unsigned(config, "num_attention_heads"),
        num_key_value_heads: read_unsigned(config, "num_key_value_heads"),
        head_dim: read_unsigned(config, "head_dim"),
        vocab_size: read_unsigned(config, "vocab_size"),
        max_position_embeddings: read_unsigned(config, "max_position_embeddings"),
        rope_theta: match read_rope(config) {
            Some(inner) => Some(
                NumberField { unsigned: inner.as_u64(), double: double_bits(inner) },
            ),
            None => None,
        },
        rms_norm_eps: match member(config, "rms_norm_eps") {
            Some(inner) => double_bits(inner),
            None => None,
        },
        tie_word_embeddings: match member(config, "tie_word_embeddings") {
            Some(inner) => inner.as_bool(),
            None => None,
        },
    }
}

/// The fields of a configuration text, or the text of the parser's error.
pub fn config_fields(text: &str) -> (result: Result<ConfigFields, String>)
    ensures
        match result {
            Ok(fields) => json_parsed(text@) is Ok && fields == fields_of(json_parsed(text@)->Ok_0),
            Err(error) => json_parsed(text@) == Err::<JsonValue, Seq<char>>(error@),
        },
{
    match parse_json(text) {
        Ok(value) => Ok(read_fields(&value)),
        Err(error) => Err(error),
    }
}

/// A double, given by its bit pattern, as an unsigned integer: the fraction is
/// dropped, what lies outside the range becomes its nearer end, and what is no
/// number becomes zero.
pub open spec fn truncated(bits: u64) -> u64 {
    let exponent = bits as int / 0x10_0000_0000_0000 % 2048;
    let fraction = bits as int % 0x10_0000_0000_0000;
    let mantissa = 0x10_0000_0000_0000 + fraction;
    if bits >= 0x8000_0000_0000_0000 || exponent < 1023 || (exponent == 2047 && fraction != 0) {
        0
    } else if exponent >= 1023 + 64 {
        u64::MAX
    } else if exponent >= 1075 {
        (mantissa * pow2((exponent - 1075) as nat)) as u64
    } else {
        (mantissa / pow2((1075 - exponent) as nat) as int) as u64
    }
}

/// A double in the range of `u64` becomes the greatest whole number that is no
/// greater. Its value is its mantissa of 53 bits times the power of two that its
/// exponent names.
pub proof fn truncation_is_the_floor(bits: u64)
    requires
        bits < 0x8000_0000_0000_0000,
        1023 <= bits / 0x10_0000_0000_0000 < 1023 + 64,
    ensures
        ({
            let exponent = bits as int / 0x10_0000_0000_0000;
            let mantissa = bits as int % 0x10_0000_0000_0000 + 0x10_0000_0000_0000;
            if exponent >= 1075 {
                truncated(bits) == mantissa * pow2((exponent - 1075) as nat)
            } else {
                truncated(bits) * pow2((1075 - exponent) as nat) <= mantissa < (truncated(bits) + 1)
                    * pow2((1075 - exponent) as nat)
            }
        }),
{
    let exponent = bits as int / 0x10_0000_0000_0000;
    let mantissa = bits as int % 0x10_0000_0000_0000 + 0x10_0000_0000_0000;
    assert(exponent % 2048 == exponent);
    vstd::arithmetic::power2::lemma2_to64();
    if exponent >= 1075 {
        let power = pow2((exponent - 1075) as nat) as int;
        if exponent - 1075 < 11 {
            vstd::arithmetic::power2::lemma_pow2_strictly_increases((exponent - 1075) as nat, 11);
        }
        assert(0 <= mantissa * power <= 0x1f_ffff_ffff_ffff * 2048) by (nonlinear_arith)
            requires
                0 <= mantissa <= 0x1f_ffff_ffff_ffff,
                0 <= power <= 2048,
        ;
    } else {
        let power = pow2((1075 - exponent) as nat) as int;
        vstd::arithmetic::power2::lemma_pow2_pos((1075 - exponent) as nat);
        assert(0 <= mantissa / power <= mantissa && mantissa / power * power <= mantissa < (mantissa
            / power + 1) * power) by (nonlinear_arith)
            requires
                power > 0,
                mantissa >= 0,
        ;
    }
}

/// What lies outside the range of `u64` becomes its nearer end: what is negative
/// or below one becomes zero, what is too great, infinity with it, the greatest.
/// What is no number becomes zero.
pub proof fn truncation_stays_in_range(bits: u64)
    ensures
        bits >= 0x8000_0000_0000_0000 ==> truncated(bits) == 0,
        bits < 0x3FF0_0000_0000_0000 ==> truncated(bits) == 0,
        0x43F0_0000_0000_0000 <= bits <= 0x7FF0_0000_0000_0000 ==> truncated(bits) == u64::MAX,
        0x7FF0_0000_0000_0000 < bits < 0x8000_0000_0000_0000 ==> truncated(bits) == 0,
{
}

fn power_of_two(exponent: u64) -> (power: u64)
    requires
        exponent <= 52,
    ensures
        power == pow2(exponent as nat),
{
    let mut power: u64 = 1;
    let mut done: u64 = 0;
    proof {
        vstd::arithmetic::power2::lemma2_to64();
        vstd::arithmetic::power2::lemma2_to64_rest();
    }
    while done < exponent
        invariant
            done <= exponent <= 52,
            power == pow2(done as nat),
            power <= 0x10_0000_0000_0000,
            pow2(52) == 0x10_0000_0000_0000,
        decreases exponent - done,
    {
        proof {
            vstd::arithmetic::power2::lemma_pow2_unfold((done + 1) as nat);
            if done + 1 < 52 {
                vstd::arithmetic::power2::lemma_pow2_strictly_increases((done + 1) as nat, 52);
            }
        }
        power = 2 * power;
        done = done + 1;
    }
    power
}

pub fn double_to_u64(bits: u64) -> (value: u64)
    ensures
        value == truncated(bits),
{
    let exponent: u64 = bits / 0x10_0000_0000_0000 % 2048;
    let fraction: u64 = bits % 0x10_0000_0000_0000;
    let mantissa: u64 = 0x10_0000_0000_0000 + fraction;
    if bits >= 0x8000_0000_0000_0000 || exponent < 1023 || (exponent == 2047 && fraction != 0) {
        0
    } else if exponent >= 1023 + 64 {
        u64::MAX
    } else if exponent >= 1075 {
        let power: u64 = power_of_two(exponent - 1075);
        proof {
            vstd::arithmetic::power2::lemma2_to64();
            if exponent - 1075 < 11 {
                vstd::arithmetic::power2::lemma_pow2_strictly_increases(
                    (exponent - 1075) as nat,
                    11,
                );
            }
            assert(mantissa * power <= 0x1f_ffff_ffff_ffff * 2048) by (nonlinear_arith)
                requires
                    mantissa <= 0x1f_ffff_ffff_ffff,
                    power <= 2048,
            ;
        }
        mantissa * power
    } else {
        let power: u64 = power_of_two(1075 - exponent);
        proof {
            vstd::arithmetic::power2::lemma_pow2_pos((1075 - exponent) as nat);
        }
        mantissa / power
    }
}

/// The rotary base as an unsigned integer.
pub open spec fn integral_rope(field: Option<NumberField>) -> u64 {
    match field {
        None => 1_000_000,
        Some(number) => match number.unsigned {
            Some(value) => value,
            None => match number.double {
                Some(bits) => truncated(bits),
                None => 1_000_000,
            },
        },
    }
}

pub open spec fn missing_entry(key: Seq<char>) -> Seq<char> {
    "missing or invalid `"@ + key + "` in Hugging Face config.json"@
}

/// The configuration of a package, or what is wrong with the fields, in the
/// order in which they are looked at.
pub open spec fn package_config(fields: ConfigFields) -> Result<QwenConfig, Seq<char>> {
    if fields.hidden_size is None {
        Err(missing_entry("hidden_size"@))
    } else if fields.num_attention_heads is None {
        Err(missing_entry("num_attention_heads"@))
    } else if fields.num_attention_heads->0 == 0 {
        Err("`num_attention_heads` must be greater than zero in Hugging Face config.json"@)
    } else if fields.head_dim is None && fields.hidden_size->0 % fields.num_attention_heads->0
        != 0 {
        Err(
            "`hidden_size` must be divisible by `num_attention_heads` when `head_dim` is absent"@,
        )
    } else if fields.intermediate_size is None {
        Err(missing_entry("intermediate_size"@))
    } else if fields.num_hidden_layers is None {
        Err(missing_entry("num_hidden_layers"@))
    } else if fields.vocab_size is None {
        Err(missing_entry("vocab_size"@))
    } else if fields.max_position_embeddings is None {
        Err(missing_entry("max_position_embeddings"@))
    } else {
        Ok(
            QwenConfig {
                hidden_size: fields.hidden_size->0,
                intermediate_size: fields.intermediate_size->0,
                num_hidden_layers: fields.num_hidden_layers->0,
                num_attention_heads: fields.num_attention_heads->0,
                num_key_value_heads: match fields.num_key_value_heads {
                    Some(value) => value,
                    None => fields.num_attention_heads->0,
                },
                head_dim: match fields.head_dim {
                    Some(value) => value,
                    None => fields.hidden_size->0 / fields.num_attention_heads->0,
                },
                vocab_size: fields.vocab_size->0,
                max_position_embeddings: fields.max_position_embeddings->0,
                rope_theta: integral_rope(fields.rope_theta),
            },
        )
    }
}

/// The member of an object is a whole number.
pub open spec fn holds_number(config: JsonValue, key: Seq<char>, number: u64) -> bool {
    match json_member(config, key) {
        Some(JsonValue::Number { unsigned, .. }) => unsigned == Some(number),
        _ => false,
    }
}

/// The member of an object is not there, or is no whole number.
pub open spec fn holds_no_number(config: JsonValue, key: Seq<char>) -> bool {
    forall|number: u64| !#[trigger] holds_number(config, key, number)
}

/// Each number of the configuration of a package is the member of the same
/// name. As many heads as there are read where it is not said how many keep keys
/// and values; where it is not said how wide a head is, the heads share out the
/// hidden state; and the rotary base is a million where it is not said.
#[verifier::rlimit(50)]
pub proof fn package_numbers_are_members(value: JsonValue)
    requires
        package_config(fields_of(value)) is Ok,
    ensures
        config_root(value) == match json_member(value, "text_config"@) {
            Some(inner) => inner,
            None => value,
        },
        ({
            let config = config_root(value);
            let package = package_config(fields_of(value))->Ok_0;
            &&& holds_number(config, "hidden_size"@, package.hidden_size)
            &&& holds_number(config, "intermediate_size"@, package.intermediate_size)
            &&& holds_number(config, "num_hidden_layers"@, package.num_hidden_layers)
            &&& holds_number(config, "num_attention_heads"@, package.num_attention_heads)
            &&& holds_number(config, "vocab_size"@, package.vocab_size)
            &&& holds_number(config, "max_position_embeddings"@, package.max_position_embeddings)
            &&& package.num_attention_heads > 0
            &&& holds_number(config, "num_key_value_heads"@, package.num_key_value_heads) || (
            holds_no_number(config, "num_key_value_heads"@) && package.num_key_value_heads
                == package.num_attention_heads)
            &&& holds_number(config, "head_dim"@, package.head_dim) || (holds_no_number(
                config,
                "head_dim"@,
            ) && package.head_dim * package.num_attention_heads == package.hidden_size)
            &&& match json_member(config, "rope_theta"@) {
                Some(JsonValue::Number { unsigned: Some(base), .. }) => package.rope_theta == base,
                Some(JsonValue::Number { unsigned: None, double }) => package.rope_theta
                    == truncated(double),
                Some(_) => package.rope_theta == 1_000_000,
                None => match json_member(config, "rope_parameters"@) {
                    Some(parameters) => match json_member(parameters, "rope_theta"@) {
                        Some(JsonValue::Number { unsigned: Some(base), .. }) => package.rope_theta
                            == base,
                        Some(JsonValue::Number { unsigned: None, double }) => package.rope_theta
                            == truncated(double),
                        _ => package.rope_theta == 1_000_000,
                    },
                    None => package.rope_theta == 1_000_000,
                },
            }
        }),
{
    let fields = fields_of(value);
    let config = config_root(value);
    let package = package_config(fields)->Ok_0;
    if fields.head_dim is None {
        let width = fields.hidden_size->0 as int;
        let heads = fields.num_attention_heads->0 as int;
        assert(width / heads * heads == width) by (nonlinear_arith)
            requires
                heads > 0,
                width % heads == 0,
        ;
        assert(holds_no_number(config, "head_dim"@));
    }
    if fields.num_key_value_heads is None {
        assert(holds_no_number(config, "num_key_value_heads"@));
    }
}

/// A package can be made just of a configuration that holds the required
/// numbers, with at least one head, whose heads share out the hidden state where
/// it is not said how wide they are.
#[verifier::rlimit(50)]
pub proof fn package_needs_its_numbers(value: JsonValue)
    ensures
        config_root(value) == match json_member(value, "text_config"@) {
            Some(inner) => inner,
            None => value,
        },
        ({
            let config = config_root(value);
            package_config(fields_of(value)) is Ok <==> {
                &&& !holds_no_number(config, "hidden_size"@)
                &&& !holds_no_number(config, "intermediate_size"@)
                &&& !holds_no_number(config, "num_hidden_layers"@)
                &&& !holds_no_number(config, "num_attention_heads"@)
                &&& !holds_no_number(config, "vocab_size"@)
                &&& !holds_no_number(config, "max_position_embeddings"@)
                &&& !holds_number(config, "num_attention_heads"@, 0)
                &&& holds_no_number(config, "head_dim"@) ==> forall|width: u64, heads: u64|
                    holds_number(config, "hidden_size"@, width) && holds_number(
                        config,
                        "num_attention_heads"@,
                        heads,
                    ) && heads > 0 ==> #[trigger] (width % heads) == 0
            }
        }),
{
    let config = config_root(value);
    lemma_number_or_none(config, "hidden_size"@);
    lemma_number_or_none(config, "intermediate_size"@);
    lemma_number_or_none(config, "num_hidden_layers"@);
    lemma_number_or_none(config, "num_attention_heads"@);
    lemma_number_or_none(config, "vocab_size"@);
    lemma_number_or_none(config, "max_position_embeddings"@);
    lemma_number_or_none(config, "head_dim"@);
    if package_config(fields_of(value)) is Err && !holds_no_number(config, "hidden_size"@)
        && !holds_no_number(config, "num_attention_heads"@) {
        let width = unsigned_member(config, "hidden_size"@)->0;
        let heads = unsigned_member(config, "num_attention_heads"@)->0;
        assert(holds_number(config, "hidden_size"@, width));
        assert(holds_number(config, "num_attention_heads"@, heads));
        assert(heads > 0 ==> width % heads == 0 || width % heads != 0);
    }
}

proof fn lemma_number_or_none(config: JsonValue, key: Seq<char>)
    ensures
        match unsigned_member(config, key) {
            Some(number) => holds_number(config, key, number) && !holds_no_number(config, key)
                && forall|other: u64| #[trigger]
                holds_number(config, key, other) ==> other == number,
            None => holds_no_number(config, key),
        },
{
    if let Some(number) = unsigned_member(config, key) {
        assert(holds_number(config, key, number));
    }
}

/// The outcome of a function whose errors are texts.
pub open spec fn text_outcome<T>(result: Result<T, String>, expected: Result<T, Seq<char>>) -> bool {
    match result {
        Ok(value) => expected == Ok::<T, Seq<char>>(value),
        Err(error) => expected == Err::<T, Seq<char>>(error@),
    }
}

fn required_u64(value: Option<u64>, key: &str) -> (result: Result<u64, String>)
    ensures
        text_outcome(
            result,
            match value {
                Some(value) => Ok(value),
                None => Err(missing_entry(key@)),
            },
        ),
{
    match value {
        Some(value) => Ok(value),
        None => Err(cat3("missing or invalid `", key, "` in Hugging Face config.json")),
    }
}

/// The configuration of a package from the fields of a `config.json`.
pub fn qwen_config(fields: &ConfigFields) -> (result: Result<QwenConfig, String>)
    ensures
        text_outcome(result, package_config(*fields)),
{
    let hidden_size: u64 = match required_u64(fields.hidden_size, "hidden_size") {
        Ok(value) => value,
        Err(error) => return Err(error),
    };
    let num_attention_heads: u64 = match required_u64(
        fields.num_attention_heads,
        "num_attention_heads",
    ) {
        Ok(value) => value,
        Err(error) => return Err(error),
    };
    if num_attention_heads == 0 {
        return Err(
            "`num_attention_heads` must be greater than zero in Hugging Face config.json".to_owned(),
        );
    }
    let head_dim: u64 = match fields.head_dim {
        Some(head_dim) => head_dim,
        None => {
            if hidden_size % num_attention_heads != 0 {
                return Err(
                    "`hidden_size` must be divisible by `num_attention_heads` when `head_dim` is absent".to_owned(),
                );
            }
            hidden_size / num_attention_heads
        },
    };
    let intermediate_size: u64 = match required_u64(
        fields.intermediate_size,
        "intermediate_size",
    ) {
        Ok(value) => value,
        Err(error) => return Err(error),
    };
    let num_hidden_layers: u64 = match required_u64(
        fields.num_hidden_layers,
        "num_hidden_layers",
    ) {
        Ok(value) => value,
        Err(error) => return Err(error),
    };
    let vocab_size: u64 = match required_u64(fields.vocab_size, "vocab_size") {
        Ok(value) => value,
        Err(error) => return Err(error),
    };
    let max_position_embeddings: u64 = match required_u64(
        fields.max_position_embeddings,
        "max_position_embeddings",
    ) {
        Ok(value) => value,
        Err(error) => return Err(error),
    };
    let rope_theta: u64 = match fields.rope_theta {
        None => 1_000_000,
        Some(number) => match number.unsigned {
            Some(value) => value,
            None => match number.double {
                Some(bits) => double_to_u64(bits),
                None => 1_000_000,
            },
        },
    };
    Ok(
        QwenConfig {
            hidden_size,
            intermediate_size,
            num_hidden_layers,
            num_attention_heads,
            num_key_value_heads: fields.num_key_value_heads.unwrap_or(num_attention_heads),
            head_dim,
            vocab_size,
            max_position_embeddings,
            rope_theta,
        },
    )
}

/// The configuration of a package from the text of a `config.json`.
pub fn read_qwen_config(text: &str) -> (result: Result<QwenConfig, String>)
    ensures
        text_outcome(
            result,
            match json_parsed(text@) {
                Ok(value) => package_config(fields_of(value)),
                Err(error) => Err(error),
            },
        ),
{
    match config_fields(text) {
        Ok(fields) => qwen_config(&fields),
        Err(error) => Err(error),
    }
}

/// A float given by a bit pattern, of a double that is still to be narrowed or
/// of a single.
#[derive(Debug, Clone, Copy, PartialEq, Eq, Structural)]
pub enum FloatBits {
    Double(u64),
    Single(u32),
}

/// The configuration that a model is run with.
#[derive(Debug, Clone, Copy, PartialEq, Eq, Structural)]
pub struct QwenRuntimeConfig {
    pub hidden_size: usize,
    pub intermediate_size: usize,
    pub num_hidden_layers: usize,
    pub num_attention_heads: usize,
    pub num_key_value_heads: usize,
    pub head_dim: usize,
    pub vocab_size: usize,
    pub rope_theta: FloatBits,
    pub rms_norm_eps: FloatBits,
    pub tie_word_embeddings: bool,
}

impl View for QwenRuntimeConfig {
    type V = QwenRuntimeConfig;

    open spec fn view(&self) -> QwenRuntimeConfig {
        *self
    }
}

/// One million as a double.
pub const DEFAULT_ROPE_THETA: u64 = 0x412E_8480_0000_0000;

/// One millionth as a double.
pub const DEFAULT_RMS_NORM_EPS: u64 = 0x3EB0_C6F7_A0B5_ED8D;

pub open spec fn missing_number(key: Seq<char>) -> Seq<char> {
    "missing or invalid `"@ + key + "` in config.json"@
}

/// The configuration to run with, or what is wrong with the fields, in the
/// order in which they are looked at.
pub open spec fn runtime_config(fields: ConfigFields) -> Result<QwenRuntimeConfig, Seq<char>> {
    if fields.hidden_size is None {
        Err(missing_number("hidden_size"@))
    } else if fields.num_attention_heads is None {
        Err(missing_number("num_attention_heads"@))
    } else if (fields.num_attention_heads->0 as usize) == 0 {
        Err("num_attention_heads must be greater than zero"@)
    } else if fields.intermediate_size is None {
        Err(missing_number("intermediate_size"@))
    } else if fields.num_hidden_layers is None {
        Err(missing_number("num_hidden_layers"@))
    } else if fields.vocab_size is None {
        Err(missing_number("vocab_size"@))
    } else {
        let hidden_size = fields.hidden_size->0 as usize;
        let heads = fields.num_attention_heads->0 as usize;
        Ok(
            QwenRuntimeConfig {
                hidden_size,
                intermediate_size: fields.intermediate_size->0 as usize,
                num_hidden_layers: fields.num_hidden_layers->0 as usize,
                num_attention_heads: heads,
                num_key_value_heads: match fields.num_key_value_heads {
                    Some(value) => value as usize,
                    None => heads,
                },
                head_dim: match fields.head_dim {
                    Some(value) => value as usize,
                    None => hidden_size / heads,
                },
                vocab_size: fields.vocab_size->0 as usize,
                rope_theta: FloatBits::Double(
                    match fields.rope_theta {
                        Some(number) => match number.double {
                            Some(bits) => bits,
                            None => DEFAULT_ROPE_THETA,
                        },
                        None => DEFAULT_ROPE_THETA,
                    },
                ),
                rms_norm_eps: FloatBits::Double(
                    match fields.rms_norm_eps {
                        Some(bits) => bits,
                        None => DEFAULT_RMS_NORM_EPS,
                    },
                ),
                tie_word_embeddings: match fields.tie_word_embeddings {
                    Some(flag) => flag,
                    None => true,
                },
            },
        )
    }
}

/// The member of an object is a whole number, and a `usize` holds this of it.
pub open spec fn holds_size(config: JsonValue, key: Seq<char>, size: usize) -> bool {
    match json_member(config, key) {
        Some(JsonValue::Number { unsigned: Some(number), .. }) => size == number as usize,
        _ => false,
    }
}

/// Each number of the configuration to run with is the member of the same name,
/// as far as a `usize` holds it. As many heads as there are read where it is not
/// said how many keep keys and values; where it is not said how wide a head is,
/// the heads share out as much of the hidden state as they can; the embedding is
/// tied where it is not said.
#[verifier::rlimit(50)]
pub proof fn runtime_numbers_are_members(value: JsonValue)
    requires
        runtime_config(fields_of(value)) is Ok,
    ensures
        config_root(value) == match json_member(value, "text_config"@) {
            Some(inner) => inner,
            None => value,
        },
        ({
            let config = config_root(value);
            let run = runtime_config(fields_of(value))->Ok_0;
            &&& holds_size(config, "hidden_size"@, run.hidden_size)
            &&& holds_size(config, "intermediate_size"@, run.intermediate_size)
            &&& holds_size(config, "num_hidden_layers"@, run.num_hidden_layers)
            &&& holds_size(config, "num_attention_heads"@, run.num_attention_heads)
            &&& holds_size(config, "vocab_size"@, run.vocab_size)
            &&& run.num_attention_heads > 0
            &&& if holds_no_number(config, "num_key_value_heads"@) {
                run.num_key_value_heads == run.num_attention_heads
            } else {
                holds_size(config, "num_key_value_heads"@, run.num_key_value_heads)
            }
            &&& if holds_no_number(config, "head_dim"@) {
                run.head_dim * run.num_attention_heads <= run.hidden_size < (run.head_dim + 1)
                    * run.num_attention_heads
            } else {
                holds_size(config, "head_dim"@, run.head_dim)
            }
            &&& match json_member(config, "rms_norm_eps"@) {
                Some(JsonValue::Number { double, .. }) => run.rms_norm_eps == FloatBits::Double(
                    double,
                ),
                _ => run.rms_norm_eps == FloatBits::Double(0x3EB0_C6F7_A0B5_ED8D),
            }
            &&& match json_member(config, "rope_theta"@) {
                Some(JsonValue::Number { double, .. }) => run.rope_theta == FloatBits::Double(
                    double,
                ),
                Some(_) => run.rope_theta == FloatBits::Double(0x412E_8480_0000_0000),
                None => match json_member(config, "rope_parameters"@) {
                    Some(parameters) => match json_member(parameters, "rope_theta"@) {
                        Some(JsonValue::Number { double, .. }) => run.rope_theta
                            == FloatBits::Double(double),
                        _ => run.rope_theta == FloatBits::Double(0x412E_8480_0000_0000),
                    },
                    None => run.rope_theta == FloatBits::Double(0x412E_8480_0000_0000),
                },
            }
            &&& match json_member(config, "tie_word_embeddings"@) {
                Some(JsonValue::Bool(flag)) => run.tie_word_embeddings == flag,
                _ => run.tie_word_embeddings,
            }
        }),
{
    let fields = fields_of(value);
    let config = config_root(value);
    let run = runtime_config(fields)->Ok_0;
    lemma_number_or_none(config, "hidden_size"@);
    lemma_number_or_none(config, "intermediate_size"@);
    lemma_number_or_none(config, "num_hidden_layers"@);
    lemma_number_or_none(config, "num_attention_heads"@);
    lemma_number_or_none(config, "vocab_size"@);
    lemma_number_or_none(config, "num_key_value_heads"@);
    lemma_number_or_none(config, "head_dim"@);
    if fields.head_dim is None {
        let width = run.hidden_size as int;
        let heads = run.num_attention_heads as int;
        assert(width / heads * heads <= width < (width / heads + 1) * heads) by (nonlinear_arith)
            requires
                heads > 0,
                width >= 0,
        ;
    }
}

fn required_usize(value: Option<u64>, key: &str) -> (result: Result<usize, TinyAgentError>)
    ensures
        config_outcome(
            result,
            match value {
                Some(value) => Ok(value as usize),
                None => Err(missing_number(key@)),
            },
        ),
{
    match value {
        Some(value) => Ok(value as usize),
        None => Err(
            TinyAgentError::Configuration(
                cat3("missing or invalid `", key, "` in config.json"),
            ),
        ),
    }
}

impl QwenRuntimeConfig {
    /// The configuration from the fields of a `config.json`.
    pub fn from_fields(fields: &ConfigFields) -> (result: Result<Self, TinyAgentError>)
        ensures
            config_outcome(result, runtime_config(*fields)),
    {
        let hidden_size: usize = match required_usize(fields.hidden_size, "hidden_size") {
            Ok(value) => value,
            Err(error) => return Err(error),
        };
        let num_attention_heads: usize = match required_usize(
            fields.num_attention_heads,
            "num_attention_heads",
        ) {
            Ok(value) => value,
            Err(error) => return Err(error),
        };
        if num_attention_heads == 0 {
            return Err(config_error("num_attention_heads must be greater than zero"));
        }
        let head_dim: usize = match fields.head_dim {
            Some(value) => value as usize,
            None => hidden_size / num_attention_heads,
        };
        let intermediate_size: usize = match required_usize(
            fields.intermediate_size,
            "intermediate_size",
        ) {
            Ok(value) => value,
            Err(error) => return Err(error),
        };
        let num_hidden_layers: usize = match required_usize(
            fields.num_hidden_layers,
            "num_hidden_layers",
        ) {
            Ok(value) => value,
            Err(error) => return Err(error),
        };
        let vocab_size: usize = match required_usize(fields.vocab_size, "vocab_size") {
            Ok(value) => value,
            Err(error) => return Err(error),
        };
        Ok(
            QwenRuntimeConfig {
                hidden_size,
                intermediate_size,
                num_hidden_layers,
                num_attention_heads,
                num_key_value_heads: match fields.num_key_value_heads {
                    Some(value) => value as usize,
                    None => num_attention_heads,
                },
                head_dim,
                vocab_size,
                rope_theta: FloatBits::Double(
                    match fields.rope_theta {
                        Some(number) => number.double.unwrap_or(DEFAULT_ROPE_THETA),
                        None => DEFAULT_ROPE_THETA,
                    },
                ),
                rms_norm_eps: FloatBits::Double(
                    fields.rms_norm_eps.unwrap_or(DEFAULT_RMS_NORM_EPS),
                ),
                tie_word_embeddings: fields.tie_word_embeddings.unwrap_or(true),
            },
        )
    }

    /// The configuration from the text of a `config.json`.
    pub fn read(text: &str) -> (result: Result<Self, TinyAgentError>)
        ensures
            config_outcome(
                result,
                match json_parsed(text@) {
                    Ok(value) => runtime_config(fields_of(value)),
                    Err(error) => Err("failed to parse config.json: "@ + error),
                },
            ),
    {
        match config_fields(text) {
            Ok(fields) => QwenRuntimeConfig::from_fields(&fields),
            Err(error) => Err(
                TinyAgentError::Configuration(
                    cat2("failed to parse config.json: ", error.as_str()),
                ),
            ),
        }
    }
}

/// What the index of a sharded checkpoint says.
#[derive(Debug, Clone, Copy, PartialEq, Eq, Structural)]
pub struct SafetensorsIndexSummary {
    pub index_bytes: u64,
    pub total_size_bytes: Option<u64>,
    pub total_parameters: Option<u64>,
}

/// A member of the member `metadata`.
pub open spec fn metadata_member(value: JsonValue, key: Seq<char>) -> Option<u64> {
    match json_member(value, "metadata"@) {
        Some(metadata) => unsigned_member(metadata, key),
        None => None,
    }
}

pub fn read_safetensors_index(text: &str) -> (result: Result<SafetensorsIndexSummary, String>)
    ensures
        text_outcome(
            result,
            match json_parsed(text@) {
                Ok(value) => Ok(
                    SafetensorsIndexSummary {
                        index_bytes: encode_utf8(text@).len() as u64,
                        total_size_bytes: metadata_member(value, "total_size"@),
                        total_parameters: metadata_member(value, "total_parameters"@),
                    },
                ),
                Err(error) => Err(error),
            },
        ),
{
    let index_bytes: u64 = text.as_bytes().len() as u64;
    let value = match parse_json(text) {
        Ok(value) => value,
        Err(error) => return Err(error),
    };
    let metadata = member(&value, "metadata");
    Ok(
        SafetensorsIndexSummary {
            index_bytes,
            total_size_bytes: match metadata {
                Some(metadata) => read_unsigned(metadata, "total_size"),
                None => None,
            },
            total_parameters: match metadata {
                Some(metadata) => read_unsigned(metadata, "total_parameters"),
                None => None,
            },
        },
    )
}

/// What an index tells stands in its member `metadata`, as whole numbers.
pub proof fn index_numbers_are_members(value: JsonValue, key: Seq<char>, number: u64)
    ensures
        metadata_member(value, key) == Some(number) <==> match json_member(value, "metadata"@) {
            Some(metadata) => holds_number(metadata, key, number),
            None => false,
        },
{
}

/// A model can be run just of a configuration that holds the required numbers,
/// with at least one head that a `usize` holds.
#[verifier::rlimit(50)]
pub proof fn running_needs_its_numbers(value: JsonValue)
    ensures
        ({
            let config = config_root(value);
            runtime_config(fields_of(value)) is Ok <==> {
                &&& !holds_no_number(config, "hidden_size"@)
                &&& !holds_no_number(config, "intermediate_size"@)
                &&& !holds_no_number(config, "num_hidden_layers"@)
                &&& !holds_no_number(config, "num_attention_heads"@)
                &&& !holds_no_number(config, "vocab_size"@)
                &&& !holds_size(config, "num_attention_heads"@, 0)
            }
        }),
{
    let config = config_root(value);
    lemma_number_or_none(config, "hidden_size"@);
    lemma_number_or_none(config, "intermediate_size"@);
    lemma_number_or_none(config, "num_hidden_layers"@);
    lemma_number_or_none(config, "num_attention_heads"@);
    lemma_number_or_none(config, "vocab_size"@);
}

} // verus!
