//! The unsigned integer types that a decimal field can be decoded into.
use vstd::prelude::*;

verus! {

/// An unsigned integer type into which a decimal field is decoded.  Digits
/// are summed in a `u32`; the sum is then cast to the target type, which
/// fails where the sum does not fit.
pub trait FieldInt: Sized {
    /// The cast of `x` to this type: the equal number, or `None` where the
    /// type cannot hold it.
    spec fn narrow(x: u32) -> Option<Self>;

    /// The number that a value of this type stands for.
    spec fn value(self) -> nat;

    /// The largest number the type holds.
    spec fn limit() -> nat;

    /// The cast keeps the number, and fails only above the type's limit.
    proof fn narrow_is_exact(x: u32)
        ensures
            x <= Self::limit() ==> Self::narrow(x) is Some && Self::narrow(x)->0.value() == x,
            x > Self::limit() ==> Self::narrow(x) is None,
    ;

    /// Casts a `u32` to this type.
    fn from_u32(x: u32) -> (r: Option<Self>)
        ensures
            r == Self::narrow(x),
    ;
}

/// `<u8 as num_traits::NumCast>::from` on a `u32`: the cast succeeds exactly
/// where the argument is at most `u8::MAX`, and then keeps the number.
#[verifier::external_body]
fn cast_u8(x: u32) -> (r: Option<u8>)
    ensures
        x <= u8::MAX ==> r == Some(x as u8),
        x > u8::MAX ==> r is None,
{
    <u8 as num_traits::NumCast>::from(x)
}

impl FieldInt for u8 {
    open spec fn narrow(x: u32) -> Option<u8> {
        if x <= u8::MAX {
            Some(x as u8)
        } else {
            None
        }
    }

    open spec fn value(self) -> nat {
        self as nat
    }

    open spec fn limit() -> nat {
        u8::MAX as nat
    }

    proof fn narrow_is_exact(x: u32) {
    }

    fn from_u32(x: u32) -> (r: Option<u8>) {
        cast_u8(x)
    }
}

/// `<u16 as num_traits::NumCast>::from` on a `u32`: the cast succeeds exactly
/// where the argument is at most `u16::MAX`, and then keeps the number.
#[verifier::external_body]
fn cast_u16(x: u32) -> (r: Option<u16>)
    ensures
        x <= u16::MAX ==> r == Some(x as u16),
        x > u16::MAX ==> r is None,
{
    <u16 as num_traits::NumCast>::from(x)
}

impl FieldInt for u16 {
    open spec fn narrow(x: u32) -> Option<u16> {
        if x <= u16::MAX {
            Some(x as u16)
        } else {
            None
        }
    }

    open spec fn value(self) -> nat {
        self as nat
    }

    open spec fn limit() -> nat {
        u16::MAX as nat
    }

    proof fn narrow_is_exact(x: u32) {
    }

    fn from_u32(x: u32) -> (r: Option<u16>) {
        cast_u16(x)
    }
}

/// `<u32 as num_traits::NumCast>::from` on a `u32`: every `u32` fits, so the
/// cast always succeeds and keeps the number.
#[verifier::external_body]
fn cast_u32(x: u32) -> (r: Option<u32>)
    ensures
        r == Some(x as u32),
{
    <u32 as num_traits::NumCast>::from(x)
}

impl FieldInt for u32 {
    open spec fn narrow(x: u32) -> Option<u32> {
        Some(x as u32)
    }

    open spec fn value(self) -> nat {
        self as nat
    }

    open spec fn limit() -> nat {
        u32::MAX as nat
    }

    proof fn narrow_is_exact(x: u32) {
    }

    fn from_u32(x: u32) -> (r: Option<u32>) {
        cast_u32(x)
    }
}

/// `<u64 as num_traits::NumCast>::from` on a `u32`: every `u32` fits, so the
/// cast always succeeds and keeps the number.
#[verifier::external_body]
fn cast_u64(x: u32) -> (r: Option<u64>)
    ensures
        r == Some(x as u64),
{
    <u64 as num_traits::NumCast>::from(x)
}

impl FieldInt for u64 {
    open spec fn narrow(x: u32) -> Option<u64> {
        Some(x as u64)
    }

    open spec fn value(self) -> nat {
        self as nat
    }

    open spec fn limit() -> nat {
        u64::MAX as nat
    }

    proof fn narrow_is_exact(x: u32) {
    }

    fn from_u32(x: u32) -> (r: Option<u64>) {
        cast_u64(x)
    }
}

/// `<u128 as num_traits::NumCast>::from` on a `u32`: every `u32` fits, so the
/// cast always succeeds and keeps the number.
#[verifier::external_body]
fn cast_u128(x: u32) -> (r: Option<u128>)
    ensures
        r == Some(x as u128),
{
    <u128 as num_traits::NumCast>::from(x)
}

impl FieldInt for u128 {
    open spec fn narrow(x: u32) -> Option<u128> {
        Some(x as u128)
    }

    open spec fn value(self) -> nat {
        self as nat
    }

    open spec fn limit() -> nat {
        u128::MAX as nat
    }

    proof fn narrow_is_exact(x: u32) {
    }

    fn from_u32(x: u32) -> (r: Option<u128>) {
        cast_u128(x)
    }
}

/// `<usize as num_traits::NumCast>::from` on a `u32`: every `u32` fits, so the
/// cast always succeeds and keeps the number.
#[verifier::external_body]
fn cast_usize(x: u32) -> (r: Option<usize>)
    ensures
        r == Some(x as usize),
{
    <usize as num_traits::NumCast>::from(x)
}

impl FieldInt for usize {
    open spec fn narrow(x: u32) -> Option<usize> {
        Some(x as usize)
    }

    open spec fn value(self) -> nat {
        self as nat
    }

    open spec fn limit() -> nat {
        usize::MAX as nat
    }

    proof fn narrow_is_exact(x: u32) {
    }

    fn from_u32(x: u32) -> (r: Option<usize>) {
        cast_usize(x)
    }
}

} // verus!
