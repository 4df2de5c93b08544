//! Source positions attached to syntax nodes for diagnostics.
use vstd::prelude::*;

verus! {

/// A range of byte offsets in the source text.
#[derive(Debug, Clone, Copy, PartialEq, Eq, Structural)]
pub struct Span {
    pub begin_offset: usize,
    pub end_offset: usize,
}

} // verus!
