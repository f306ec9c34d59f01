//! A deterministic household net-worth projection engine.
//!
//! The crate simulates month-by-month balance changes for a set of asset
//! categories driven by recurring cash flows, applies per-flow tax
//! withholding, reconciles tax once per year, and feeds the resulting
//! refund or debt back into the following year as a synthetic flow.
//! All arithmetic is exact fixed-point (integer cents and scaled rates).

pub mod asset;
pub mod errors;
pub mod events;
pub mod flow;
pub mod lookup_table;
pub mod model;
pub mod tax;
pub mod text;
pub mod time;

use vstd::prelude::*;

verus! {

/// Truncating (round-toward-zero) integer division, the semantics of
/// Rust's `/` on signed integers.
pub open spec fn tdiv(a: int, b: int) -> int {
    if a == 0 {
        0
    } else if a > 0 && b > 0 {
        a / b
    } else if a < 0 && b < 0 {
        (-a) / (-b)
    } else if a < 0 {
        -((-a) / b)
    } else {
        -(a / (-b))
    }
}

/// Truncating (round-toward-zero) integer remainder, the semantics of
/// Rust's `%` on signed integers.
pub open spec fn tmod(a: int, b: int) -> int {
    if a == 0 {
        0
    } else if a > 0 && b > 0 {
        a % b
    } else if a < 0 && b < 0 {
        -((-a) % (-b))
    } else if a < 0 {
        -((-a) % b)
    } else {
        a % (-b)
    }
}

} // verus!
