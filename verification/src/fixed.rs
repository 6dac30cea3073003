//! Q16 fixed-point helpers: truncating division, and splitting a Q16 value
//! into its integer (floor) and fractional parts.

use vstd::prelude::*;
use vstd::arithmetic::div_mod::lemma_fundamental_div_mod;
use vstd::arithmetic::div_mod::lemma_fundamental_div_mod_converse;

verus! {

/// Division rounding toward zero, for a positive divisor, as Rust's `/`
/// computes it on machine integers.
pub open spec fn spec_trunc_div(a: int, b: int) -> int
    recommends
        b > 0,
{
    if a >= 0 {
        a / b
    } else {
        -((-a) / b)
    }
}

/// Truncating division of `i64` values, mirroring `spec_trunc_div`.
pub fn trunc_div(a: i64, b: i64) -> (r: i64)
    requires
        b > 0,
        -0x4000_0000_0000_0000 < a < 0x4000_0000_0000_0000,
    ensures
        r == spec_trunc_div(a as int, b as int),
        a >= 0 ==> 0 <= r <= a,
        a < 0 ==> a <= r <= 0,
{
    if a >= 0 {
        a / b
    } else {
        -((-a) / b)
    }
}

/// Truncating division by a positive divisor never leaves `[-m, m]` when the
/// dividend lies in `[-m * b, m * b]`.
pub proof fn lemma_trunc_div_bound(a: int, b: int, m: int)
    requires
        b > 0,
        0 <= m,
        -(m * b) <= a <= m * b,
    ensures
        -m <= spec_trunc_div(a, b) <= m,
{
    if a >= 0 {
        vstd::arithmetic::div_mod::lemma_div_is_ordered(a, m * b, b);
        vstd::arithmetic::div_mod::lemma_div_by_multiple(m, b);
    } else {
        vstd::arithmetic::div_mod::lemma_div_is_ordered(-a, m * b, b);
        vstd::arithmetic::div_mod::lemma_div_by_multiple(m, b);
        vstd::arithmetic::div_mod::lemma_div_pos_is_pos(-a, b);
    }
}

/// The floor of `y / 65536`.
pub open spec fn spec_floor_q16(y: int) -> int {
    y / 65536
}

/// The fractional part of a Q16 value: `y - 65536 * floor(y / 65536)`,
/// always in `[0, 65536)`.
pub open spec fn spec_fract_q16(y: int) -> int {
    y - 65536 * spec_floor_q16(y)
}

pub proof fn lemma_fract_q16_range(y: int)
    ensures
        0 <= spec_fract_q16(y) < 65536,
{
    lemma_fundamental_div_mod(y, 65536);
}

/// Splits a Q16 value into `(floor, fract)` with
/// `y == floor * 65536 + fract` and `0 <= fract < 65536`.
pub fn floor_split_q16(y: i64) -> (r: (i64, u32))
    requires
        -0x4000_0000_0000_0000 < y < 0x4000_0000_0000_0000,
    ensures
        r.0 == spec_floor_q16(y as int),
        r.1 == spec_fract_q16(y as int),
        y == r.0 * 65536 + r.1,
        0 <= r.1 < 65536,
{
    proof {
        lemma_fract_q16_range(y as int);
    }
    if y >= 0 {
        let q: i64 = y / 65536;
        let f: i64 = y % 65536;
        (q, f as u32)
    } else {
        let m: i64 = -y;
        let q0: i64 = (m + 65535) / 65536;
        let r0: i64 = (m + 65535) % 65536;
        let f: i64 = 65535 - r0;
        proof {
            lemma_fundamental_div_mod((m + 65535) as int, 65536);
            assert(y as int == 65536 * (-q0 as int) + (65535 - r0));
            lemma_fundamental_div_mod_converse(y as int, 65536, -q0 as int, (65535 - r0) as int);
        }
        (-q0, f as u32)
    }
}

} // verus!
