//! The 8-bit arithmetic of the register-to-register instructions.

use vstd::prelude::*;

verus! {

/// The sum of two registers as the add instructions leave it: modulo 256.
pub open spec fn wrapped_sum(a: u8, b: u8) -> u8 {
    ((a + b) % 256) as u8
}

/// The carry of the add instruction: 1 if the sum does not fit in 8 bits.
pub open spec fn carry(a: u8, b: u8) -> u8 {
    if a + b > 255 {
        1
    } else {
        0
    }
}

/// The difference `a - b` as the subtract instructions leave it: modulo 256.
pub open spec fn wrapped_diff(a: u8, b: u8) -> u8 {
    ((a - b) % 256) as u8
}

/// The flag of the subtract instructions: 1 if `a - b` needs no borrow.
pub open spec fn no_borrow(a: u8, b: u8) -> u8 {
    if a >= b {
        1
    } else {
        0
    }
}

/// A register shifted right by one bit.
pub open spec fn shifted_right(a: u8) -> u8 {
    a / 2
}

/// The bit that a shift to the right pushes out: the lowest.
pub open spec fn low_bit(a: u8) -> u8 {
    a % 2
}

/// A register shifted left by one bit, modulo 256.
pub open spec fn shifted_left(a: u8) -> u8 {
    ((a * 2) % 256) as u8
}

/// The bit that a shift to the left pushes out: the highest.
pub open spec fn high_bit(a: u8) -> u8 {
    a / 128
}

/// The index register after a register was added to it: modulo 65536.
pub open spec fn wrapped_index(index: u16, value: u8) -> u16 {
    ((index + value) % 0x10000) as u16
}

/// The hundreds, tens and units of a byte in decimal.
pub open spec fn bcd(value: u8) -> (u8, u8, u8) {
    (value / 100, (value / 10) % 10, value % 10)
}

/// `a + b` modulo 256, and the carry.
pub fn add_with_carry(a: u8, b: u8) -> (r: (u8, u8))
    ensures
        r == (wrapped_sum(a, b), carry(a, b)),
{
    let flag: u8 = if a as u16 + b as u16 > 255 {
        1
    } else {
        0
    };
    (a.wrapping_add(b), flag)
}

/// `a - b` modulo 256, and 1 if no borrow was needed, else 0.
pub fn sub_with_borrow(a: u8, b: u8) -> (r: (u8, u8))
    ensures
        r == (wrapped_diff(a, b), no_borrow(a, b)),
{
    let flag: u8 = if a >= b {
        1
    } else {
        0
    };
    (a.wrapping_sub(b), flag)
}

/// `a` shifted right by one bit, and the bit pushed out.
pub fn shift_right(a: u8) -> (r: (u8, u8))
    ensures
        r == (shifted_right(a), low_bit(a)),
{
    (a / 2, a % 2)
}

/// `a` shifted left by one bit, and the bit pushed out.
pub fn shift_left(a: u8) -> (r: (u8, u8))
    ensures
        r == (shifted_left(a), high_bit(a)),
{
    (a.wrapping_add(a), a / 128)
}

/// The decimal digits of a byte: hundreds, tens, units.
pub fn digits(value: u8) -> (r: (u8, u8, u8))
    ensures
        r == bcd(value),
{
    (value / 100, (value / 10) % 10, value % 10)
}

/// The add instruction sets the flag to 1 exactly if the true sum is above
/// 255, and to 0 otherwise; what it stores differs from the true sum by 256
/// exactly then.
pub proof fn lemma_add_flag(a: u8, b: u8)
    ensures
        carry(a, b) == 1 <==> a + b > 255,
        carry(a, b) == 0 <==> a + b <= 255,
        wrapped_sum(a, b) + 256 * carry(a, b) == a + b,
{
}

/// The subtract instructions set the flag to 1 exactly if `a >= b`, and to 0
/// otherwise; what they store differs from the true difference by 256
/// exactly where there was a borrow.
pub proof fn lemma_sub_flag(a: u8, b: u8)
    ensures
        no_borrow(a, b) == 1 <==> a >= b,
        no_borrow(a, b) == 0 <==> a < b,
        wrapped_diff(a, b) == a - b + 256 * (1 - no_borrow(a, b)),
{
}

/// A shift and the bit it pushes out lose nothing of the register.
pub proof fn lemma_shift_keeps_bits(a: u8)
    ensures
        2 * shifted_right(a) + low_bit(a) == a,
        shifted_left(a) + 256 * high_bit(a) == 2 * a,
        low_bit(a) <= 1,
        high_bit(a) <= 1,
{
}

/// The three decimal digits of a byte are digits, and read together as
/// hundreds, tens and units they give the byte back.
pub proof fn lemma_bcd_reconstructs(value: u8)
    ensures
        bcd(value).0 == value / 100,
        bcd(value).1 == (value / 10) % 10,
        bcd(value).2 == value % 10,
        bcd(value).0 <= 2,
        bcd(value).1 <= 9,
        bcd(value).2 <= 9,
        100 * bcd(value).0 + 10 * bcd(value).1 + bcd(value).2 == value,
{
}

} // verus!
