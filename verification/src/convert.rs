//! A small lookup abstraction: a value that can turn one kind of key into
//! another kind of value, when it knows the key.

use vstd::prelude::*;

verus! {

/// A fallible lookup from `A` to `B`: tables, caches and indexes can all
/// expose their lookups under one shape.
pub trait Converter<A, B> {
    /// Look up `from`, if this converter knows it.
    fn convert(&self, from: A) -> Option<B>;
}

} // verus!
