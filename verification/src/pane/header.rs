//! Pane header helpers.

use vstd::prelude::*;

verus! {

/// The digit shown in the badge of the pane at 0-based `index`: the last
/// decimal digit of `index + 1` taken as a 32-bit number.
pub open spec fn badge_digit(index: nat) -> char {
    (48 + (((index + 1) % 0x1_0000_0000) % 10)) as char
}

/// Get a digit badge for a 0-based pane index.
pub fn badge_char(index: usize) -> (c: char)
    requires
        index < usize::MAX,
    ensures
        c == badge_digit(index as nat),
{
    let m: usize = index + 1;
    let wide: u64 = m as u64;
    let n: u32 = wide as u32;
    assert(n == wide % 0x1_0000_0000) by (bit_vector)
        requires
            n == wide as u32,
    ;
    let d: u32 = n % 10;
    let v: u32 = 48 + d;
    char_from_digit_value(v)
}

fn char_from_digit_value(v: u32) -> (c: char)
    requires
        48 <= v <= 57,
    ensures
        c as u32 == v,
{
    if v == 48 { '0' }
    else if v == 49 { '1' }
    else if v == 50 { '2' }
    else if v == 51 { '3' }
    else if v == 52 { '4' }
    else if v == 53 { '5' }
    else if v == 54 { '6' }
    else if v == 55 { '7' }
    else if v == 56 { '8' }
    else { '9' }
}

} // verus!
