//! The dimension resolver: from the size that was asked for and the size of
//! the source to the size of the rendered frame.
//!
//! A glyph is about twice as high as it is wide. Where only one dimension is
//! asked for, the other follows from the proportions of the source, halved.
//! The arithmetic is exact.

use vstd::prelude::*;
use crate::error::EngineError;

verus! {

/// The quotient `numerator / denominator`, rounded up.
pub open spec fn ceil_div(numerator: nat, denominator: nat) -> nat
    recommends
        denominator > 0,
{
    if numerator % denominator == 0 {
        numerator / denominator
    } else {
        numerator / denominator + 1
    }
}

/// The dimension that goes with `known`, for a source that measures
/// `known_source` along the known dimension and `opposite_source` along the
/// other: `known * opposite_source / known_source / 2`, rounded up.
///
/// A value beyond `u32::MAX` is held at `u32::MAX`. A source that measures
/// zero along the known dimension has no proportions: the result is then
/// zero if `known * opposite_source` is zero, and `u32::MAX` if not.
pub open spec fn scaled_dimension(known: nat, opposite_source: nat, known_source: nat) -> nat {
    if known_source == 0 {
        if known * opposite_source == 0 {
            0
        } else {
            u32::MAX as nat
        }
    } else {
        let exact = ceil_div(known * opposite_source, 2 * known_source);
        if exact > u32::MAX {
            u32::MAX as nat
        } else {
            exact
        }
    }
}

/// The size of the rendered frame, as width and height. Where both are
/// asked for, both are taken as they are. Where one is asked for, the other
/// is scaled from it. Where none is, there is no size.
pub open spec fn resolved_dimensions(
    requested_width: Option<u32>,
    requested_height: Option<u32>,
    source_width: u32,
    source_height: u32,
) -> Option<(u32, u32)> {
    match (requested_width, requested_height) {
        (Some(width), Some(height)) => Some((width, height)),
        (Some(width), None) => Some(
            (width, scaled_dimension(width as nat, source_height as nat, source_width as nat) as u32),
        ),
        (None, Some(height)) => Some(
            (scaled_dimension(height as nat, source_width as nat, source_height as nat) as u32, height),
        ),
        (None, None) => None,
    }
}

/// `ceil_div` is the ceiling of the quotient: the least number whose product
/// with the denominator reaches the numerator.
pub proof fn lemma_ceil_div_is_ceiling(numerator: nat, denominator: nat)
    requires
        denominator > 0,
    ensures
        ceil_div(numerator, denominator) * denominator >= numerator,
        numerator > 0 ==> (ceil_div(numerator, denominator) - 1) * denominator < numerator,
        numerator == 0 ==> ceil_div(numerator, denominator) == 0,
{
    let q = numerator / denominator;
    let r = numerator % denominator;
    assert(numerator == q * denominator + r && 0 <= r < denominator) by (nonlinear_arith)
        requires
            denominator > 0,
            q == numerator / denominator,
            r == numerator % denominator,
    ;
    assert((q + 1) * denominator == q * denominator + denominator) by (nonlinear_arith);
    assert((q - 1) * denominator == q * denominator - denominator) by (nonlinear_arith);
    if numerator == 0 {
        assert(q == 0) by (nonlinear_arith)
            requires
                q * denominator + r == 0,
                q >= 0,
                r >= 0,
                denominator > 0,
        ;
    }
}

/// For a source with a positive size along the known dimension, the scaled
/// dimension is the ceiling of `known * opposite_source / known_source / 2`,
/// held at `u32::MAX`: twice the known source size, times one less than the
/// result, stays below the product `known * opposite_source`, and times the
/// result itself reaches it unless the result is held at the limit. A
/// product of zero gives zero.
pub proof fn lemma_scaled_dimension_is_ceiling(known: nat, opposite_source: nat, known_source: nat)
    requires
        known_source > 0,
    ensures
        ({
            let scaled = scaled_dimension(known, opposite_source, known_source);
            let product = known * opposite_source;
            &&& scaled <= u32::MAX
            &&& product == 0 ==> scaled == 0
            &&& product > 0 ==> (scaled - 1) * (2 * known_source) < product
            &&& scaled < u32::MAX ==> scaled * (2 * known_source) >= product
        }),
{
    let product = known * opposite_source;
    let divisor = 2 * known_source;
    let exact = ceil_div(product, divisor);
    lemma_ceil_div_is_ceiling(product, divisor);
    if exact > u32::MAX {
        assert((u32::MAX - 1) * divisor <= (exact - 1) * divisor) by (nonlinear_arith)
            requires
                u32::MAX - 1 <= exact - 1,
                divisor > 0,
        ;
    }
}

/// Where one dimension is asked for and the other is not, the one asked
/// for is kept and the other is `known * opposite_source / known_source / 2`
/// rounded up, for every source that has a positive size along the known
/// dimension, as far as 32 bits hold the result.
pub proof fn lemma_missing_dimension_keeps_proportions(
    known: u32,
    source_width: u32,
    source_height: u32,
)
    ensures
        resolved_dimensions(Some(known), None, source_width, source_height) matches Some(
            (width, height),
        ) && width == known && (source_width > 0 ==> {
            &&& known * source_height == 0 ==> height == 0
            &&& known * source_height > 0 ==> (height - 1) * (2 * source_width) < known
                * source_height
            &&& height < u32::MAX ==> height * (2 * source_width) >= known * source_height
        }),
        resolved_dimensions(None, Some(known), source_width, source_height) matches Some(
            (width, height),
        ) && height == known && (source_height > 0 ==> {
            &&& known * source_width == 0 ==> width == 0
            &&& known * source_width > 0 ==> (width - 1) * (2 * source_height) < known
                * source_width
            &&& width < u32::MAX ==> width * (2 * source_height) >= known * source_width
        }),
{
    if source_width > 0 {
        lemma_scaled_dimension_is_ceiling(known as nat, source_height as nat, source_width as nat);
    }
    if source_height > 0 {
        lemma_scaled_dimension_is_ceiling(known as nat, source_width as nat, source_height as nat);
    }
}

/// The number that goes with `known`: see [`scaled_dimension`].
fn scale(known: u32, opposite_source: u32, known_source: u32) -> (scaled: u32)
    ensures
        scaled == scaled_dimension(known as nat, opposite_source as nat, known_source as nat),
{
    assert(known * opposite_source <= 0xffff_ffff * 0xffff_ffff) by (nonlinear_arith)
        requires
            known <= 0xffff_ffff,
            opposite_source <= 0xffff_ffff,
    ;
    let product: u64 = (known as u64) * (opposite_source as u64);
    if known_source == 0 {
        if product == 0 {
            0
        } else {
            u32::MAX
        }
    } else {
        let divisor: u64 = 2 * (known_source as u64);
        let quotient: u64 = product / divisor;
        let exact: u64 = if product % divisor == 0 {
            quotient
        } else {
            quotient + 1
        };
        if exact > u32::MAX as u64 {
            u32::MAX
        } else {
            exact as u32
        }
    }
}

/// Resolves the size of the rendered frame. At least one of the two
/// dimensions has to be asked for: with neither, the call fails with
/// `InvalidDimensions`. A dimension that is asked for is taken as it is, and
/// a missing one is scaled from the other by the proportions of the source.
///
/// The result may hold a zero, for a source without pixels or where a zero
/// was asked for: nothing is raised to one here.
pub fn resolve(
    requested_width: Option<u32>,
    requested_height: Option<u32>,
    source_width: u32,
    source_height: u32,
) -> (resolved: Result<(u32, u32), EngineError>)
    ensures
        match resolved {
            Ok(size) => resolved_dimensions(
                requested_width,
                requested_height,
                source_width,
                source_height,
            ) == Some(size),
            Err(error) => error is InvalidDimensions && requested_width is None
                && requested_height is None,
        },
{
    match (requested_width, requested_height) {
        (Some(width), Some(height)) => Ok((width, height)),
        (Some(width), None) => Ok((width, scale(width, source_height, source_width))),
        (None, Some(height)) => Ok((scale(height, source_width, source_height), height)),
        (None, None) => Err(EngineError::InvalidDimensions),
    }
}

} // verus!
