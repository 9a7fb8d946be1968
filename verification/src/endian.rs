//! Numbers in network byte order.

use vstd::prelude::*;

verus! {

/// The two bytes of `v` in reverse order.
#[verifier::opaque]
pub open spec fn swap16_spec(v: u16) -> u16 {
    ((v % 0x100) * 0x100 + v / 0x100) as u16
}

/// The three low bytes of `v` in reverse order; the highest byte is dropped.
#[verifier::opaque]
pub open spec fn swap24_spec(v: u32) -> u32 {
    ((v % 0x100) * 0x1_0000 + ((v / 0x100) % 0x100) * 0x100 + (v / 0x1_0000) % 0x100) as u32
}

/// The four bytes of `v` in reverse order.
#[verifier::opaque]
pub open spec fn swap32_spec(v: u32) -> u32 {
    ((v % 0x100) * 0x100_0000 + ((v / 0x100) % 0x100) * 0x1_0000 + ((v / 0x1_0000) % 0x100) * 0x100
        + v / 0x100_0000) as u32
}

/// Reverses the bytes of a 16 bit number.
pub fn swap16(v: u16) -> (r: u16)
    ensures
        r == swap16_spec(v),
{
    proof {
        reveal(swap16_spec);
    }
    (v % 0x100) * 0x100 + v / 0x100
}

/// Reverses the bytes of a 24 bit number.
pub fn swap24(v: u32) -> (r: u32)
    ensures
        r == swap24_spec(v),
        r < 0x100_0000,
{
    proof {
        reveal(swap24_spec);
    }
    (v % 0x100) * 0x1_0000 + ((v / 0x100) % 0x100) * 0x100 + (v / 0x1_0000) % 0x100
}

/// Reverses the bytes of a 32 bit number.
pub fn swap32(v: u32) -> (r: u32)
    ensures
        r == swap32_spec(v),
{
    proof {
        reveal(swap32_spec);
    }
    (v % 0x100) * 0x100_0000 + ((v / 0x100) % 0x100) * 0x1_0000 + ((v / 0x1_0000) % 0x100) * 0x100
        + v / 0x100_0000
}

/// Reversing twice gives the number back; of a 24 bit reversal, its low 24 bits.
pub proof fn swap_involutive(a: u16, b: u32, c: u32)
    ensures
        swap16_spec(swap16_spec(a)) == a,
        swap24_spec(swap24_spec(b)) == b % 0x100_0000,
        swap32_spec(swap32_spec(c)) == c,
{
    assert(swap16_spec(swap16_spec(a)) == a) by (bit_vector);
    assert(swap24_spec(swap24_spec(b)) == b % 0x100_0000) by (bit_vector);
    assert(swap32_spec(swap32_spec(c)) == c) by (bit_vector);
}

/// Reversing puts the lowest byte highest, and so on: each byte of the reversed
/// number is the one of the number that lies as far from its other end.
pub proof fn law_bytes_are_reversed(a: u16, b: u32, c: u32)
    ensures
        swap16_spec(a) % 0x100 == a / 0x100,
        swap16_spec(a) / 0x100 == a % 0x100,
        swap24_spec(b) % 0x100 == (b / 0x1_0000) % 0x100,
        (swap24_spec(b) / 0x100) % 0x100 == (b / 0x100) % 0x100,
        swap24_spec(b) / 0x1_0000 == b % 0x100,
        swap32_spec(c) % 0x100 == c / 0x100_0000,
        (swap32_spec(c) / 0x100) % 0x100 == (c / 0x1_0000) % 0x100,
        (swap32_spec(c) / 0x1_0000) % 0x100 == (c / 0x100) % 0x100,
        swap32_spec(c) / 0x100_0000 == c % 0x100,
{
    assert(swap16_spec(a) % 0x100 == a / 0x100 && swap16_spec(a) / 0x100 == a % 0x100) by (bit_vector);
    assert(swap24_spec(b) % 0x100 == (b / 0x1_0000) % 0x100 && (swap24_spec(b) / 0x100) % 0x100 == (b / 0x100) % 0x100
        && swap24_spec(b) / 0x1_0000 == b % 0x100) by (bit_vector);
    assert(swap32_spec(c) % 0x100 == c / 0x100_0000 && (swap32_spec(c) / 0x100) % 0x100 == (c / 0x1_0000) % 0x100)
        by (bit_vector);
    assert((swap32_spec(c) / 0x1_0000) % 0x100 == (c / 0x100) % 0x100 && swap32_spec(c) / 0x100_0000 == c % 0x100)
        by (bit_vector);
}

} // verus!
