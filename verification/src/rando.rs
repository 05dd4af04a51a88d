//! Sources of randomness for shape generation and mutation, and the
//! bounded-nudge arithmetic built on them.
//!
//! The draws come from the rand crate; nothing can be promised of a
//! random value beyond its range, so the trusted wrappers state ranges
//! only. The nudge arithmetic on top of them is verified exactly: each
//! nudge result is pinned to be the clamp of the old value plus the
//! bounded signed delta of some unit draw.

use vstd::prelude::*;
use rand::Rng;

verus! {

/// `v` clamped into `min ..= max`.
pub open spec fn clamp_to(v: int, min: int, max: int) -> int {
    if v < min {
        min
    } else if v > max {
        max
    } else {
        v
    }
}

/// The signed delta a unit draw `r` (in `0 .. 1000`) produces at a
/// given `range` in thousandths: `(r/1000 - 1/2) * range` on the grid,
/// truncated toward zero, so its magnitude is at most half of `range`.
pub open spec fn nudge_delta(r: int, range: int) -> int {
    if r >= 500 {
        (r - 500) * range / 1000
    } else {
        -((500 - r) * range / 1000)
    }
}

/// Whether `q` is a bounded signed nudge of `p`: the clamp into
/// `min ..= max` of `p` plus the delta of some unit draw.
pub open spec fn is_nudged(q: int, p: int, range: int, min: int, max: int) -> bool {
    exists|r: int| 0 <= r < 1000 && q == clamp_to(p + nudge_delta(r, range), min, max)
}

/// The byte-scaled signed delta of a unit draw: `(r/1000 - 1/2) * 256 *
/// range / 1000`, truncated toward zero.
pub open spec fn color_nudge_delta(r: int, range: int) -> int {
    if r >= 500 {
        (r - 500) * 256 * range / 1000000
    } else {
        -((500 - r) * 256 * range / 1000000)
    }
}

/// Whether `q` is a bounded signed nudge of the byte channel `c`,
/// saturated to the byte range.
pub open spec fn is_color_nudged(q: int, c: int, range: int) -> bool {
    exists|r: int| 0 <= r < 1000 && q == clamp_to(c + color_nudge_delta(r, range), 0, 255)
}

/// Relies on rand::Rng::gen_range over `0..1000`: a uniform draw on the
/// thousandths grid, strictly below one. The integer counterpart of a
/// uniform unit-interval sample.
#[verifier::external_body]
pub fn rand() -> (r: u16)
    ensures
        r < 1000,
{
    rand::thread_rng().gen_range(0..1000u16)
}

/// Relies on rand::Rng::gen_range over `0..n`: a uniform draw below
/// `n`, for choosing a channel intensity, a mutation branch or a list
/// index.
#[verifier::external_body]
pub fn rand_below(n: usize) -> (r: usize)
    requires
        1 <= n,
    ensures
        r < n,
{
    rand::thread_rng().gen_range(0..n)
}

/// A uniform channel intensity, strictly below the top of the byte
/// range.
pub fn randu8() -> (r: u8)
    ensures
        r < 255,
{
    rand_below(255) as u8
}

/// A uniformly chosen valid index of the vector, or `None` exactly when
/// the vector is empty.
pub fn choose_index<T>(v: &Vec<T>) -> (r: Option<usize>)
    ensures
        match r {
            Some(i) => i < v@.len(),
            None => v@.len() == 0,
        },
        v@.len() > 0 ==> r is Some,
{
    if v.len() == 0 {
        None
    } else {
        Some(rand_below(v.len()))
    }
}

/// Nudges `p` by the bounded signed delta of a fresh unit draw — at
/// most half of `range` in magnitude — and clamps to `min ..= max`.
pub fn rand_adjust(p: u16, range: u16, min: u16, max: u16) -> (q: u16)
    requires
        min <= max,
        max <= 1000,
        range <= 1000,
    ensures
        min <= q <= max,
        is_nudged(q as int, p as int, range as int, min as int, max as int),
{
    let r = rand() as i64;
    let delta: i64 = if r >= 500 {
        proof {
            assert(0 <= (r - 500) * (range as i64) <= 500 * 1000) by (nonlinear_arith)
                requires
                    500 <= r < 1000,
                    0 <= range as i64 <= 1000,
            ;
        }
        (r - 500) * (range as i64) / 1000
    } else {
        proof {
            assert(0 <= (500 - r) * (range as i64) <= 500 * 1000) by (nonlinear_arith)
                requires
                    0 <= r < 500,
                    0 <= range as i64 <= 1000,
            ;
        }
        -((500 - r) * (range as i64) / 1000)
    };
    let v: i64 = p as i64 + delta;
    let w: i64 = if v < min as i64 {
        min as i64
    } else if v > max as i64 {
        max as i64
    } else {
        v
    };
    proof {
        assert(delta == nudge_delta(r as int, range as int));
        assert(w == clamp_to(p as int + nudge_delta(r as int, range as int), min as int, max as int));
    }
    w as u16
}

/// Nudges a byte channel by the bounded signed delta of a fresh unit
/// draw scaled to the byte range, saturating at its ends.
pub fn rand_color_adjust(c: u8, range: u16) -> (q: u8)
    requires
        range <= 1000,
    ensures
        q <= 255,
        is_color_nudged(q as int, c as int, range as int),
{
    let r = rand() as i64;
    let delta: i64 = if r >= 500 {
        proof {
            assert(0 <= (r - 500) * 256 * (range as i64) <= 500 * 256 * 1000) by (nonlinear_arith)
                requires
                    500 <= r < 1000,
                    0 <= range as i64 <= 1000,
            ;
        }
        (r - 500) * 256 * (range as i64) / 1000000
    } else {
        proof {
            assert(0 <= (500 - r) * 256 * (range as i64) <= 500 * 256 * 1000) by (nonlinear_arith)
                requires
                    0 <= r < 500,
                    0 <= range as i64 <= 1000,
            ;
        }
        -((500 - r) * 256 * (range as i64) / 1000000)
    };
    let v: i64 = c as i64 + delta;
    let w: i64 = if v < 0 {
        0
    } else if v > 255 {
        255
    } else {
        v
    };
    proof {
        assert(delta == color_nudge_delta(r as int, range as int));
        assert(w == clamp_to(c as int + color_nudge_delta(r as int, range as int), 0, 255));
    }
    w as u8
}

} // verus!
