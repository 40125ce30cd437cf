//! A minimal 2D drawing core: an integer Bresenham rasterizer over a
//! bounded, centre-origin cell buffer, with a textual renderer.  Movement
//! and heading (the floating-point turtle) live outside; this crate holds
//! the discrete geometry and proves what each operation does to the buffer.

use vstd::prelude::*;

pub mod canvas;
pub mod line;

verus! {

/// What `transform` computes, over mathematical integers.
///
/// For `|n|` read as a decimal numeral, `x` is the thousands digit plus the
/// hundreds digit and `y` is the tens digit plus the units digit (digits
/// beyond the thousands place all land in `x`).  For non-negative `n` the
/// result packs the smaller sum into the hundreds place and the larger one
/// into the units place; for negative `n` the packing is mirrored and the
/// result negated, matching truncating machine division.
pub open spec fn spec_transform(n: int) -> int {
    let m = if n >= 0 { n } else { -n };
    let x = m / 1000 + (m % 1000) / 100;
    let y = (m % 100) / 10 + m % 10;
    if n >= 0 {
        if x < y {
            x * 100 + y
        } else {
            y * 100 + x
        }
    } else {
        if x > y {
            -(x * 100 + y)
        } else {
            -(y * 100 + x)
        }
    }
}

/// Folds the decimal digits of `n` into a packed code: the two digit-pair
/// sums of `|n|`, the smaller one in the hundreds place (the larger one
/// there, and the whole result negated, when `n` is negative).
pub fn transform(n: i32) -> (r: i32)
    ensures
        r as int == spec_transform(n as int),
{
    let m: u64 = if n >= 0 {
        n as u64
    } else {
        (-(n as i64)) as u64
    };
    proof {
        assert(m as int == if n as int >= 0 { n as int } else { -(n as int) });
        assert(m <= 0x8000_0000);
        assert(m as int / 1000 <= 0x8000_0000int / 1000) by {
            vstd::arithmetic::div_mod::lemma_div_is_ordered(m as int, 0x8000_0000int, 1000);
        }
    }
    let x: u64 = m / 1000 + (m % 1000) / 100;
    let y: u64 = (m % 100) / 10 + m % 10;
    let code: u64 = if n >= 0 {
        if x < y {
            x * 100 + y
        } else {
            y * 100 + x
        }
    } else {
        if x > y {
            x * 100 + y
        } else {
            y * 100 + x
        }
    };
    proof {
        assert(x <= 2147492 && y <= 18);
        assert(code < 0x8000_0000);
    }
    if n >= 0 {
        code as i32
    } else {
        -(code as i32)
    }
}

} // verus!
