//! Key encoding for nested namespaces over a flat, lexicographically ordered
//! byte-keyed store: length-prefixed namespace prefixes, the exclusive upper
//! bound of a prefix, and the raw interval a prefixed scan covers.
use vstd::prelude::*;

pub mod bound;
pub mod encoding;
pub mod order;
pub mod range;

verus! {

} // verus!
