//! Integers of 256 bits.
use vstd::prelude::*;
use vstd::std_specs::convert::FromSpecImpl;

use crate::serde::buf::le_signed_value;
use crate::serde::buf::le_value;

verus! {

/// An unsigned integer of any size.
#[verifier::external_type_specification]
#[verifier::external_body]
pub struct ExBigUint(num_bigint::BigUint);

/// An integer of any size.
#[verifier::external_type_specification]
#[verifier::external_body]
pub struct ExBigInt(num_bigint::BigInt);

/// The number that an unsigned integer of any size holds.
pub uninterp spec fn biguint_value(n: num_bigint::BigUint) -> nat;

/// The number that an integer of any size holds.
pub uninterp spec fn bigint_value(n: num_bigint::BigInt) -> int;

/// `num_bigint::BigUint::from_bytes_le` makes the unsigned integer whose
/// digits to the base 256 are the bytes, the least significant first.
#[verifier::external_body]
fn biguint_from_bytes_le(bytes: &[u8]) -> (n: num_bigint::BigUint)
    ensures
        biguint_value(n) == le_value(bytes@),
{
    num_bigint::BigUint::from_bytes_le(bytes)
}

/// `num_bigint::BigInt::from_signed_bytes_le` makes the integer that the
/// bytes denote in two's complement, the least significant byte first.
#[verifier::external_body]
fn bigint_from_signed_bytes_le(bytes: &[u8]) -> (n: num_bigint::BigInt)
    requires
        bytes@.len() > 0,
    ensures
        bigint_value(n) == le_signed_value(bytes@),
{
    num_bigint::BigInt::from_signed_bytes_le(bytes)
}

/// An unsigned integer of 256 bits: its bytes, the least significant first.
#[derive(Debug, Clone, Copy, Hash, PartialEq, Eq)]
pub struct u256(pub [u8; 32]);

/// A signed integer of 256 bits in two's complement: its bytes, the least
/// significant first.
#[derive(Debug, Clone, Copy, Hash, PartialEq, Eq)]
pub struct i256(pub [u8; 32]);

impl View for u256 {
    type V = Seq<u8>;

    open spec fn view(&self) -> Seq<u8> {
        self.0@
    }
}

impl View for i256 {
    type V = Seq<u8>;

    open spec fn view(&self) -> Seq<u8> {
        self.0@
    }
}

impl u256 {
    /// The number.
    pub open spec fn value(&self) -> nat {
        le_value(self@)
    }

    /// The integer of these bytes.
    pub fn new(data: [u8; 32]) -> (r: Self)
        ensures
            r@ == data@,
    {
        Self(data)
    }
}

impl i256 {
    /// The number.
    pub open spec fn value(&self) -> int {
        le_signed_value(self@)
    }

    /// The integer of these bytes.
    pub fn new(data: [u8; 32]) -> (r: Self)
        ensures
            r@ == data@,
    {
        Self(data)
    }
}

impl From<u256> for num_bigint::BigUint {
    /// The integer of any size that holds the same number.
    fn from(value: u256) -> (n: num_bigint::BigUint)
        ensures
            biguint_value(n) == value.value(),
    {
        biguint_from_bytes_le(value.0.as_slice())
    }
}

impl FromSpecImpl<u256> for num_bigint::BigUint {
    open spec fn obeys_from_spec() -> bool {
        false
    }

    open spec fn from_spec(v: u256) -> num_bigint::BigUint {
        arbitrary()
    }
}

impl From<i256> for num_bigint::BigInt {
    /// The integer of any size that holds the same number.
    fn from(value: i256) -> (n: num_bigint::BigInt)
        ensures
            bigint_value(n) == value.value(),
    {
        bigint_from_signed_bytes_le(value.0.as_slice())
    }
}

impl FromSpecImpl<i256> for num_bigint::BigInt {
    open spec fn obeys_from_spec() -> bool {
        false
    }

    open spec fn from_spec(v: i256) -> num_bigint::BigInt {
        arbitrary()
    }
}

} // verus!
