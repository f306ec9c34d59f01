//! The failure taxonomy of the engine. Configuration problems are caught
//! when a model is built; everything here is fatal and aborts the
//! operation that raised it.

use vstd::prelude::*;

verus! {

/// Why evaluating a flow, a tax rule or a simulation step failed.
#[derive(Debug, Clone, Copy, PartialEq, Eq, Structural)]
pub enum EvalError {
    /// A fixed-point multiplication or accumulation left the 64-bit range.
    Overflow,
    /// A queried time lay outside a lookup table's covered interval.
    TimeNotInTable,
}

/// Why a set of lookup-table entries was rejected.
#[derive(Debug, Clone, Copy, PartialEq, Eq, Structural)]
pub enum TableError {
    /// No entries were given.
    Empty,
    /// The entry at this position (in sorted order) has an empty or
    /// inverted range.
    BadEntry { index: usize },
    /// The entry at this position (in sorted order) does not start where
    /// its predecessor ends: the entries leave a gap or overlap.
    NotContiguous { index: usize },
}

/// A failure while evaluating one category's year: the month it happened
/// in, the flow being evaluated when a single flow was at fault (a
/// month's balance update has no single flow), and what went wrong.
#[derive(Debug, Clone, PartialEq, Eq)]
pub struct CategoryError {
    pub month: crate::time::Month,
    pub flow: Option<crate::flow::FlowName>,
    pub error: EvalError,
}

/// A simulation failure together with its causal chain: the year being
/// simulated, and — for a failure inside a category's evaluation — the
/// category, the month and the flow at fault.
#[derive(Debug, Clone, PartialEq, Eq)]
pub struct RunError {
    pub year: crate::time::Year,
    pub category: Option<crate::asset::CategoryName>,
    pub month: Option<crate::time::Month>,
    pub flow: Option<crate::flow::FlowName>,
    pub error: EvalError,
}

/// Why a model's configuration was rejected.
#[derive(Debug, Clone, Copy, PartialEq, Eq, Structural)]
pub enum ModelError {
    /// The designated tax category is not one of the configured categories.
    UnknownTaxCategory,
    /// Some flow list is keyed by a category that is not configured.
    UnknownFlowCategory,
    /// Two flow lists are keyed by the same category; the later one would
    /// be silently ignored.
    DuplicateFlowCategory,
}

} // verus!
