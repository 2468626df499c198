//! Fixed-point decimals.
use vstd::prelude::*;
use vstd::std_specs::convert::FromSpecImpl;

use crate::error::DecimalFault;
use crate::error::Error;
use crate::error::Failure;
use crate::error::Result;
use crate::serde::buf::int_of;
use crate::serde::buf::le_signed_value;
use crate::serde::buf::le_value;
use crate::serde::buf::lemma_le_value_split;
use crate::serde::buf::lemma_pow256_values;
use crate::serde::buf::pow256;
use crate::serde::buf::uint_of;

verus! {

/// The unscaled number of a decimal: the bytes of an integer of 32, 64, 128
/// or 256 bits, the least significant byte first.
#[derive(Debug, Clone, Copy, Hash, PartialEq, Eq)]
pub enum Decimal {
    I32([u8; 4]),
    I64([u8; 8]),
    I128([u8; 16]),
    I256([u8; 32]),
}

/// A [`Decimal`], its bytes as a sequence.
pub ghost enum DecimalView {
    I32(Seq<u8>),
    I64(Seq<u8>),
    I128(Seq<u8>),
    I256(Seq<u8>),
}

impl View for Decimal {
    type V = DecimalView;

    open spec fn view(&self) -> DecimalView {
        match self {
            Decimal::I32(data) => DecimalView::I32(data@),
            Decimal::I64(data) => DecimalView::I64(data@),
            Decimal::I128(data) => DecimalView::I128(data@),
            Decimal::I256(data) => DecimalView::I256(data@),
        }
    }
}

impl From<[u8; 4]> for Decimal {
    fn from(value: [u8; 4]) -> (r: Decimal)
        ensures
            r == Decimal::I32(value),
    {
        Decimal::I32(value)
    }
}

impl FromSpecImpl<[u8; 4]> for Decimal {
    open spec fn obeys_from_spec() -> bool {
        true
    }

    open spec fn from_spec(v: [u8; 4]) -> Decimal {
        Decimal::I32(v)
    }
}

impl From<[u8; 8]> for Decimal {
    fn from(value: [u8; 8]) -> (r: Decimal)
        ensures
            r == Decimal::I64(value),
    {
        Decimal::I64(value)
    }
}

impl FromSpecImpl<[u8; 8]> for Decimal {
    open spec fn obeys_from_spec() -> bool {
        true
    }

    open spec fn from_spec(v: [u8; 8]) -> Decimal {
        Decimal::I64(v)
    }
}

impl From<[u8; 16]> for Decimal {
    fn from(value: [u8; 16]) -> (r: Decimal)
        ensures
            r == Decimal::I128(value),
    {
        Decimal::I128(value)
    }
}

impl FromSpecImpl<[u8; 16]> for Decimal {
    open spec fn obeys_from_spec() -> bool {
        true
    }

    open spec fn from_spec(v: [u8; 16]) -> Decimal {
        Decimal::I128(v)
    }
}

impl From<[u8; 32]> for Decimal {
    fn from(value: [u8; 32]) -> (r: Decimal)
        ensures
            r == Decimal::I256(value),
    {
        Decimal::I256(value)
    }
}

impl FromSpecImpl<[u8; 32]> for Decimal {
    open spec fn obeys_from_spec() -> bool {
        true
    }

    open spec fn from_spec(v: [u8; 32]) -> Decimal {
        Decimal::I256(v)
    }
}

/// A fixed-point number of 96 bits: `mantissa` divided by ten to the power
/// of `scale`.
#[derive(Debug, Clone, Copy, Hash, PartialEq, Eq)]
pub struct FixedPoint {
    pub mantissa: i128,
    pub scale: u32,
}

/// The greatest scale of a fixed-point number.
pub const MAX_SCALE: u32 = 28;

/// The greatest unscaled number of a fixed-point number: 96 bits set.
pub const MAX_MANTISSA: i128 = 0xFFFF_FFFF_FFFF_FFFF_FFFF_FFFF;

/// The fixed-point number of an unscaled number and a scale: the scale is
/// looked at first, then the number.
pub open spec fn fixed_point(num: int, scale: u32) -> core::result::Result<FixedPoint, DecimalFault> {
    if scale > MAX_SCALE {
        Err(DecimalFault::ScaleExceedsMaximumPrecision(scale))
    } else if num > MAX_MANTISSA {
        Err(DecimalFault::ExceedsMaximumPossibleValue)
    } else if num < -MAX_MANTISSA {
        Err(DecimalFault::LessThanMinimumPossibleValue)
    } else {
        Ok(FixedPoint { mantissa: num as i128, scale })
    }
}

/// `rust_decimal::Decimal::try_new` makes the decimal of a number of 64 bits
/// and a scale, and refuses a scale above 28; `mantissa` and `scale` give the
/// two back.
#[verifier::external_body]
fn decimal_try_new(num: i64, scale: u32) -> (r: core::result::Result<FixedPoint, DecimalFault>)
    ensures
        r == fixed_point(num as int, scale),
{
    match rust_decimal::Decimal::try_new(num, scale) {
        Ok(d) => Ok(FixedPoint { mantissa: d.mantissa(), scale: d.scale() }),
        Err(rust_decimal::Error::ScaleExceedsMaximumPrecision(s)) => Err(
            DecimalFault::ScaleExceedsMaximumPrecision(s),
        ),
        Err(rust_decimal::Error::ExceedsMaximumPossibleValue) => Err(
            DecimalFault::ExceedsMaximumPossibleValue,
        ),
        Err(rust_decimal::Error::LessThanMinimumPossibleValue) => Err(
            DecimalFault::LessThanMinimumPossibleValue,
        ),
        Err(_) => Err(DecimalFault::ExceedsRange),
    }
}

/// `rust_decimal::Decimal::try_from_i128_with_scale` makes the decimal of a
/// number of 128 bits and a scale; it refuses a scale above 28, and then a
/// number above or below 96 bits.  `mantissa` and `scale` give the two back.
#[verifier::external_body]
fn decimal_try_from_i128(num: i128, scale: u32) -> (r: core::result::Result<
    FixedPoint,
    DecimalFault,
>)
    ensures
        r == fixed_point(num as int, scale),
{
    match rust_decimal::Decimal::try_from_i128_with_scale(num, scale) {
        Ok(d) => Ok(FixedPoint { mantissa: d.mantissa(), scale: d.scale() }),
        Err(rust_decimal::Error::ScaleExceedsMaximumPrecision(s)) => Err(
            DecimalFault::ScaleExceedsMaximumPrecision(s),
        ),
        Err(rust_decimal::Error::ExceedsMaximumPossibleValue) => Err(
            DecimalFault::ExceedsMaximumPossibleValue,
        ),
        Err(rust_decimal::Error::LessThanMinimumPossibleValue) => Err(
            DecimalFault::LessThanMinimumPossibleValue,
        ),
        Err(_) => Err(DecimalFault::ExceedsRange),
    }
}

impl DecimalView {
    /// The unscaled number: the bytes of 32, 64 and 128 bits are read in
    /// two's complement, those of 256 bits as an unsigned number.
    pub open spec fn unscaled(self) -> int {
        match self {
            DecimalView::I32(data) => le_signed_value(data),
            DecimalView::I64(data) => le_signed_value(data),
            DecimalView::I128(data) => le_signed_value(data),
            DecimalView::I256(data) => le_value(data) as int,
        }
    }

    /// The fixed-point number of the bytes at this scale.  A number of 256
    /// bits that needs more than 128 bits is out of range, whatever the
    /// scale.
    pub open spec fn to_fixed_point(self, scale: u32) -> core::result::Result<
        FixedPoint,
        DecimalFault,
    > {
        match self {
            DecimalView::I256(data) => if le_value(data) >= pow256(16) {
                Err(DecimalFault::ExceedsRange)
            } else {
                fixed_point(self.unscaled(), scale)
            },
            _ => fixed_point(self.unscaled(), scale),
        }
    }
}

/// Bytes that are not all zero denote a number that is not zero.
pub proof fn lemma_le_value_nonzero(bytes: Seq<u8>)
    requires
        exists|i: int| 0 <= i < bytes.len() && bytes[i] != 0,
    ensures
        le_value(bytes) > 0,
    decreases bytes.len(),
{
    let i = choose|i: int| 0 <= i < bytes.len() && bytes[i] != 0;
    if i > 0 {
        assert(bytes.skip(1)[i - 1] == bytes[i]);
        lemma_le_value_nonzero(bytes.skip(1));
    }
}

/// A number of 256 bits whose upper sixteen bytes are not all zero is out of
/// the range of a fixed-point number, at every scale.
pub proof fn lemma_high_bytes_exceed_range(data: Seq<u8>, scale: u32)
    requires
        data.len() == 32,
        exists|i: int| 16 <= i < 32 && data[i] != 0,
    ensures
        DecimalView::I256(data).to_fixed_point(scale) == Err::<FixedPoint, DecimalFault>(
            DecimalFault::ExceedsRange,
        ),
{
    let i = choose|i: int| 16 <= i < 32 && data[i] != 0;
    assert(data.skip(16)[i - 16] == data[i]);
    lemma_le_value_nonzero(data.skip(16));
    lemma_le_value_split(data, 16);
    let high = le_value(data.skip(16));
    lemma_pow256_values();
    assert(pow256(16) * high >= pow256(16)) by (nonlinear_arith)
        requires
            high >= 1,
            pow256(16) > 0,
    ;
}

impl Decimal {
    /// The fixed-point number of the bytes at this scale.
    pub fn try_to_rust_decimal(&self, scale: u32) -> (r: Result<FixedPoint>)
        ensures
            match r {
                Ok(d) => self@.to_fixed_point(scale) == Ok::<FixedPoint, DecimalFault>(d),
                Err(e) => self@.to_fixed_point(scale) matches Err(fault) && e@
                    == Failure::ParseDecimalError(fault),
            },
    {
        proof {
            lemma_pow256_values();
        }
        let made: core::result::Result<FixedPoint, DecimalFault> = match self {
            Decimal::I32(data) => {
                let num: i128 = int_of(data.as_slice());
                let r = decimal_try_new(num as i64, scale);
                assert(r == self@.to_fixed_point(scale));
                r
            },
            Decimal::I64(data) => {
                let num: i128 = int_of(data.as_slice());
                let r = decimal_try_new(num as i64, scale);
                assert(r == self@.to_fixed_point(scale));
                r
            },
            Decimal::I128(data) => {
                let num: i128 = int_of(data.as_slice());
                let r = decimal_try_from_i128(num, scale);
                assert(r == self@.to_fixed_point(scale));
                r
            },
            Decimal::I256(data) => {
                let bytes: &[u8] = data.as_slice();
                let (low_bytes, high_bytes) = bytes.split_at(16);
                let low: u128 = uint_of(low_bytes);
                let high: u128 = uint_of(high_bytes);
                proof {
                    lemma_le_value_split(data@, 16);
                    assert(low_bytes@ == data@.take(16));
                    assert(high_bytes@ == data@.skip(16));
                    let p = pow256(16);
                    assert(le_value(data@) == low + p * high);
                    if high == 0 {
                        assert(p * high == 0) by (nonlinear_arith)
                            requires
                                high == 0,
                        ;
                        assert(le_value(data@) == low);
                    } else {
                        assert(p * high >= p) by (nonlinear_arith)
                            requires
                                high >= 1,
                                p > 0,
                        ;
                        assert(le_value(data@) >= p);
                    }
                }
                if high != 0 {
                    assert(self@.to_fixed_point(scale) == Err::<FixedPoint, DecimalFault>(
                        DecimalFault::ExceedsRange,
                    ));
                    Err(DecimalFault::ExceedsRange)
                } else if low > i128::MAX as u128 {
                    let r = decimal_try_from_i128(i128::MAX, scale);
                    assert(r == fixed_point(low as int, scale));
                    assert(r == self@.to_fixed_point(scale));
                    r
                } else {
                    let r = decimal_try_from_i128(low as i128, scale);
                    assert(r == self@.to_fixed_point(scale));
                    r
                }
            },
        };
        match made {
            Ok(d) => Ok(d),
            Err(fault) => Err(Error::ParseDecimalError(fault)),
        }
    }
}

} // verus!
