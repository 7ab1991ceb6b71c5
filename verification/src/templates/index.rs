use vstd::prelude::*;

verus! {

/// The landing page.
#[derive(Debug, Default, Copy, Clone, PartialEq, Eq, Structural)]
pub struct Index;

} // verus!
