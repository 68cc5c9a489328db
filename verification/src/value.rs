//! Runtime values of the machine.

use vstd::prelude::*;

verus! {

/// The sign bit of an IEEE 754 binary64 pattern.
pub const SIGN_BIT: u64 = 0x8000_0000_0000_0000;

/// The pattern `bits` with its sign bit inverted and every other bit kept.
pub open spec fn flip_sign(bits: u64) -> u64 {
    if bits >= SIGN_BIT {
        (bits - SIGN_BIT) as u64
    } else {
        (bits + SIGN_BIT) as u64
    }
}

/// A number, held as the 64 bits of its IEEE 754 binary64 encoding.
///
/// The view of a value is that bit pattern.
#[derive(Debug, Clone, Copy)]
pub struct Value {
    bits: u64,
}

impl View for Value {
    type V = u64;

    closed spec fn view(&self) -> u64 {
        self.bits
    }
}

impl Value {
    /// The value that `negate` returns for `self`.
    pub closed spec fn negated(self) -> Value {
        Value { bits: flip_sign(self.bits) }
    }

    /// Wraps the binary64 pattern `bits`.
    pub fn new(bits: u64) -> (value: Value)
        ensures
            value@ == bits,
    {
        Value { bits }
    }

    /// The binary64 pattern of this number.
    pub fn to_bits(&self) -> (bits: u64)
        ensures
            bits == self@,
    {
        self.bits
    }

    /// Arithmetic negation: the same magnitude with the opposite sign.
    pub fn negate(self) -> (result: Value)
        ensures
            result == self.negated(),
            result@ == flip_sign(self@),
    {
        let bits: u64 = self.bits;
        let flipped: u64 = bits ^ SIGN_BIT;
        assert(flipped == flip_sign(bits)) by {
            lemma_xor_flips_sign(bits);
        }
        Value { bits: flipped }
    }
}

proof fn lemma_xor_flips_sign(bits: u64)
    ensures
        bits ^ SIGN_BIT == flip_sign(bits),
{
    assert(bits >= 0x8000_0000_0000_0000u64 ==> bits ^ 0x8000_0000_0000_0000u64 == (bits
        - 0x8000_0000_0000_0000u64) as u64) by (bit_vector);
    assert(bits < 0x8000_0000_0000_0000u64 ==> bits ^ 0x8000_0000_0000_0000u64 == (bits
        + 0x8000_0000_0000_0000u64) as u64) by (bit_vector);
}

/// A value is determined by its bit pattern.
pub proof fn lemma_value_by_bits(a: Value, b: Value)
    ensures
        a@ == b@ <==> a == b,
{
}

/// Negation inverts the sign bit of the pattern.
pub proof fn lemma_negated_bits(value: Value)
    ensures
        value.negated()@ == flip_sign(value@),
{
}

/// Negating twice gives the number back.
pub proof fn lemma_negate_twice(value: Value)
    ensures
        value.negated().negated() == value,
{
}

} // verus!
