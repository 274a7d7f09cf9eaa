//! What a model needs.

use vstd::arithmetic::power2::is_pow2;
use vstd::prelude::*;

verus! {

#[derive(Debug, Clone, PartialEq, Eq)]
pub struct ModelManifest {
    pub id: String,
    pub family: String,
    pub gguf_path: Option<String>,
    pub quantization: String,
    pub context_size: u32,
    pub recommended_context_8gb: u32,
    pub estimated_weight_mb: u64,
    pub estimated_kv_cache_mb_4k: u64,
    pub backend: String,
}

/// The distance between neighbouring numbers of 53 significant bits around
/// `value`, at least 1.
pub open spec fn spacing(value: nat) -> nat
    decreases value,
{
    if value < 0x20_0000_0000_0000 {
        1
    } else {
        2 * spacing(value / 2)
    }
}

/// The number of 53 significant bits nearest to `value`; of two equally near
/// ones the one whose last bit is zero. This is how a double rounds.
pub open spec fn rounded(value: nat) -> nat {
    let unit = spacing(value);
    let below = value / unit;
    let rest = value % unit;
    if 2 * rest < unit || (2 * rest == unit && below % 2 == 0) {
        below * unit
    } else {
        (below + 1) * unit
    }
}

/// The memory of the key-value cache for a context of `ctx_size` tokens, in
/// whole megabytes, when 4096 tokens take `at_4k`: computed in doubles and
/// rounded up.
pub open spec fn scaled_cache_mb(at_4k: u64, ctx_size: u32) -> nat {
    let tokens: nat = if ctx_size == 0 {
        1
    } else {
        ctx_size as nat
    };
    let product = rounded(rounded(at_4k as nat) * tokens);
    let megabytes = (product + 4095) / 4096;
    if megabytes > u64::MAX {
        u64::MAX as nat
    } else {
        megabytes
    }
}

/// Below 2^53 nothing is lost: the cache grows in proportion to the context,
/// and the result is rounded up.
pub proof fn scaled_cache_is_proportional(at_4k: u64, ctx_size: u32)
    requires
        at_4k * ctx_size < 0x20_0000_0000_0000,
        at_4k < 0x20_0000_0000_0000,
        ctx_size > 0,
    ensures
        scaled_cache_mb(at_4k, ctx_size) == (at_4k * ctx_size + 4095) / 4096,
{
    lemma_rounded_exact(at_4k as nat);
    lemma_rounded_exact((at_4k * ctx_size) as nat);
}

proof fn lemma_rounded_exact(value: nat)
    requires
        value < 0x20_0000_0000_0000,
    ensures
        rounded(value) == value,
{
    assert(spacing(value) == 1);
    assert(value / 1 == value && value % 1 == 0 && value * 1 == value);
}

proof fn lemma_spacing(value: nat)
    ensures
        1 <= spacing(value),
        value > 0 ==> spacing(value) <= value,
    decreases value,
{
    if value >= 0x20_0000_0000_0000 {
        lemma_spacing(value / 2);
    }
}

proof fn lemma_rounded_bound(value: nat)
    ensures
        rounded(value) <= 2 * value,
{
    lemma_spacing(value);
    let unit = spacing(value);
    if value > 0 {
        let below = value / unit;
        assert(below * unit <= value && (below + 1) * unit <= value + unit) by (nonlinear_arith)
            requires
                unit >= 1,
                below == value / unit,
        ;
    }
}

fn spacing_u128(value: u128) -> (unit: u128)
    ensures
        unit == spacing(value as nat),
    decreases value,
{
    if value < 0x20_0000_0000_0000 {
        1
    } else {
        proof {
            lemma_spacing(value as nat / 2);
        }
        2 * spacing_u128(value / 2)
    }
}

fn rounded_u128(value: u128) -> (result: u128)
    requires
        value <= u128::MAX / 4,
    ensures
        result == rounded(value as nat),
{
    let unit: u128 = spacing_u128(value);
    proof {
        lemma_spacing(value as nat);
        lemma_rounded_bound(value as nat);
    }
    let below: u128 = value / unit;
    let rest: u128 = value % unit;
    assert(below * unit <= value && 2 * rest <= 2 * value + 2 * unit) by (nonlinear_arith)
        requires
            unit >= 1,
            below == value as int / unit as int,
            rest == value as int % unit as int,
    ;
    if 2 * rest < unit || (2 * rest == unit && below % 2 == 0) {
        below * unit
    } else {
        assert((below + 1) * unit <= u128::MAX) by {
            if value == 0 {
                assert(unit == 1);
            }
            assert((below + 1) * unit == below * unit + unit) by (nonlinear_arith);
        }
        (below + 1) * unit
    }
}

impl ModelManifest {
    /// The estimated memory of the weights and of the cache for a context of
    /// `ctx_size` tokens.
    pub fn estimated_peak_mb(&self, ctx_size: u32) -> (megabytes: u64)
        requires
            self.estimated_weight_mb + scaled_cache_mb(self.estimated_kv_cache_mb_4k, ctx_size)
                <= u64::MAX,
        ensures
            megabytes == self.estimated_weight_mb + scaled_cache_mb(
                self.estimated_kv_cache_mb_4k,
                ctx_size,
            ),
    {
        let tokens: u128 = if ctx_size == 0 {
            1
        } else {
            ctx_size as u128
        };
        let at_4k: u128 = rounded_u128(self.estimated_kv_cache_mb_4k as u128);
        proof {
            lemma_rounded_bound(self.estimated_kv_cache_mb_4k as nat);
            assert(at_4k * tokens <= 0x2_0000_0000_0000_0000 * 0x1_0000_0000) by (nonlinear_arith)
                requires
                    at_4k <= 0x2_0000_0000_0000_0000,
                    tokens <= 0x1_0000_0000,
            ;
        }
        let product: u128 = rounded_u128(at_4k * tokens);
        proof {
            lemma_rounded_bound((at_4k * tokens) as nat);
        }
        let megabytes: u128 = (product + 4095) / 4096;
        let cache: u64 = if megabytes > u64::MAX as u128 {
            u64::MAX
        } else {
            megabytes as u64
        };
        self.estimated_weight_mb + cache
    }
}

/// A number is rounded to the nearest of those that a double can hold, which
/// stand as far apart as a double with 53 bits leaves between its neighbours.
/// From the middle between two of them it goes to the even one.
#[verifier::rlimit(50)]
pub proof fn rounding_goes_to_the_nearest_double(value: nat)
    ensures
        ({
            let unit = spacing(value);
            &&& unit > 0 && rounded(value) % unit == 0
            &&& 2 * rounded(value) <= 2 * value + unit && 2 * value <= 2 * rounded(value) + unit
            &&& 2 * rounded(value) == 2 * value + unit || 2 * value == 2 * rounded(value) + unit
                ==> rounded(value) / unit % 2 == 0
            &&& value / unit < 0x20_0000_0000_0000
            &&& unit > 1 ==> value / unit >= 0x10_0000_0000_0000
            &&& is_pow2(unit as int)
        }),
{
    lemma_spacing(value);
    lemma_spacing_fits(value);
    let unit = spacing(value) as int;
    let below = value as int / unit;
    let rest = value as int % unit;
    assert(value == below * unit + rest && 0 <= rest < unit) by (nonlinear_arith)
        requires
            unit > 0,
            below == value as int / unit,
            rest == value as int % unit,
    ;
    assert((below * unit) % unit == 0 && ((below + 1) * unit) % unit == 0 && (below * unit) / unit
        == below && ((below + 1) * unit) / unit == below + 1 && (below + 1) * unit == below * unit
        + unit) by (nonlinear_arith)
        requires
            unit > 0,
    ;
}

proof fn lemma_spacing_fits(value: nat)
    ensures
        spacing(value) > 0,
        value / spacing(value) < 0x20_0000_0000_0000,
        spacing(value) > 1 ==> value / spacing(value) >= 0x10_0000_0000_0000,
        is_pow2(spacing(value) as int),
    decreases value,
{
    reveal_with_fuel(is_pow2, 2);
    if value >= 0x20_0000_0000_0000 {
        lemma_spacing_fits(value / 2);
        let half = value as int / 2;
        let unit = spacing(value / 2) as int;
        assert(value as int / (2 * unit) == half / unit) by (nonlinear_arith)
            requires
                unit > 0,
                half == value as int / 2,
                value >= 0,
        ;
        assert(is_pow2(2 * unit)) by {
            assert(2 * unit % 2 == 0 && 2 * unit / 2 == unit);
        }
        if unit == 1 {
            assert(half / 1 == half);
        }
    } else {
        assert(value / 1 == value);
    }
}

/// The cache of a context takes the megabytes that it takes at 4096 tokens, in
/// proportion, rounded up; a context of no tokens counts as one.
pub proof fn no_context_counts_as_one_token(at_4k: u64)
    ensures
        scaled_cache_mb(at_4k, 0) == scaled_cache_mb(at_4k, 1),
{
}

} // verus!
