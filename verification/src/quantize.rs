//! From document coordinates to the device's eight bits.

use crate::decimal::Decimal;
use crate::error::CompileError;
use vstd::prelude::*;

verus! {

/// The largest device coordinate.
pub const FULL_SCALE: u8 = 255;

/// Where the coordinate `raw` falls when a document dimension of `dimension`
/// is spread over the device's range: `255 * raw / dimension`, rounded
/// down, and held to `0..=255`.
pub open spec fn quantized(raw: int, dimension: int) -> int {
    let scaled = if dimension > 0 {
        (FULL_SCALE * raw) / dimension
    } else {
        (FULL_SCALE * -raw) / (-dimension)
    };
    if scaled < 0 {
        0
    } else if scaled > FULL_SCALE {
        FULL_SCALE as int
    } else {
        scaled
    }
}

/// Every quantized coordinate is a device coordinate.
pub proof fn lemma_quantized_in_range(raw: int, dimension: int)
    ensures
        0 <= quantized(raw, dimension) <= FULL_SCALE,
{
}

/// The origin stays at the origin, whatever the dimension.
pub proof fn lemma_quantized_origin(dimension: int)
    requires
        dimension != 0,
    ensures
        quantized(0, dimension) == 0,
{
}

proof fn lemma_negative_quotient(n: int, d: int)
    requires
        n < 0,
        d > 0,
    ensures
        n / d < 0,
{
    assert(n / d < 0) by (nonlinear_arith)
        requires
            n < 0,
            d > 0,
    ;
}

/// Scales one coordinate to the device; a dimension of zero scales nothing.
pub fn quantize(raw: Decimal, dimension: Decimal) -> (r: Result<u8, CompileError>)
    ensures
        r == if dimension@ == 0 {
            Err::<u8, CompileError>(CompileError::InvalidViewbox)
        } else {
            Ok(quantized(raw@, dimension@) as u8)
        },
{
    let n = raw.raw();
    let d = dimension.raw();
    if d == 0 {
        return Err(CompileError::InvalidViewbox);
    }
    if (n < 0 && d > 0) || (n > 0 && d < 0) {
        proof {
            if d > 0 {
                lemma_negative_quotient(FULL_SCALE * n, d as int);
            } else {
                lemma_negative_quotient(FULL_SCALE * -n, -d);
            }
        }
        return Ok(0);
    }
    let above: u128 = if n < 0 { (-n) as u128 } else { n as u128 };
    let below: u128 = if d < 0 { (-d) as u128 } else { d as u128 };
    let scaled = (FULL_SCALE as u128 * above) / below;
    assert(scaled >= 0);
    if scaled > FULL_SCALE as u128 {
        Ok(FULL_SCALE)
    } else {
        Ok(scaled as u8)
    }
}

} // verus!
