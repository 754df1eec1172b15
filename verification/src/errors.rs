//! Construction-time configuration errors.
//!
//! A degenerate configuration must fail fast at construction, never at
//! query time: a zero or negative grid spacing would corrupt the cell rule
//! silently, and a zero bounce budget would make the slide loop a no-op.

use vstd::prelude::*;

verus! {

/// Why a component refused its configuration.
#[derive(Clone, Copy, PartialEq, Eq, Structural, Debug)]
pub enum ConfigError {
    /// The grid spacing is zero, negative, or beyond the coordinate range.
    BadSpacing,
    /// The slide loop was given no bounces to work with.
    BadBounceBudget,
}

} // verus!
