//! Error values reported by the core.

use vstd::prelude::*;

verus! {

/// A display string was malformed: it did not begin with a numeric token
/// that fits an unsigned 32-bit value.
///
/// The operation that met it is aborted and the prior state retained.
#[derive(Clone, Copy, Debug, PartialEq, Eq, Structural)]
pub struct FormatError;

} // verus!
