//! Conversions between the unsigned handle encoding used by the arena and the
//! signed 64-bit integers that cross the sandbox boundary.

use vstd::prelude::*;

use crate::errors::VMResult;

verus! {

/// The two's-complement reading of a 64-bit pattern as a signed integer.
pub open spec fn signed_of(bits: u64) -> int {
    if bits < 0x8000_0000_0000_0000 {
        bits as int
    } else {
        bits as int - 0x1_0000_0000_0000_0000
    }
}

/// The 64-bit pattern of a signed integer.
pub open spec fn unsigned_of(n: i64) -> int {
    if n >= 0 {
        n as int
    } else {
        n as int + 0x1_0000_0000_0000_0000
    }
}

/// Reading a pattern as signed and taking the pattern of the result gives the
/// pattern back, and the other way round.
pub proof fn lemma_signed_unsigned(bits: u64, n: i64)
    ensures
        i64::MIN <= signed_of(bits) <= i64::MAX,
        0 <= unsigned_of(n) <= u64::MAX,
        unsigned_of(signed_of(bits) as i64) == bits,
        signed_of(unsigned_of(n) as u64) == n,
{
}

/// Reinterprets a handle as the signed integer that is handed to the guest.
/// Every handle has one: the conversion never fails.
pub fn to_i64(input: u64) -> (r: VMResult<i64>)
    ensures
        r.is_ok(),
        r.unwrap() as int == signed_of(input),
        unsigned_of(r.unwrap()) == input,
{
    Ok(signed(input))
}

/// Reinterprets a handle as the signed integer that is handed to the guest.
pub fn signed(input: u64) -> (r: i64)
    ensures
        r as int == signed_of(input),
        unsigned_of(r) == input,
{
    if input < 0x8000_0000_0000_0000 {
        input as i64
    } else {
        let low: u64 = input - 0x8000_0000_0000_0000;
        low as i64 + i64::MIN
    }
}

/// Reinterprets a signed integer that came from the guest as a handle.
pub fn to_u64(input: i64) -> (r: u64)
    ensures
        r as int == unsigned_of(input),
        signed_of(r) == input,
{
    if input >= 0 {
        input as u64
    } else {
        let low: i64 = input - i64::MIN;
        low as u64 + 0x8000_0000_0000_0000
    }
}

} // verus!
