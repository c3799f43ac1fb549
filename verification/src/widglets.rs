//! Plain data consumed by the host's widget layer.

use vstd::prelude::*;

verus! {

/// The size class of a heading.
#[derive(Debug, Clone, Copy, PartialEq, Eq, Structural)]
pub enum HeadingLevel {
    H1,
    H2,
    H3,
    Subheading,
}

} // verus!
