use vstd::prelude::*;

verus! {

/// The page shown for an address that the site does not have.
#[derive(Debug, Copy, Clone, PartialEq, Eq, Structural)]
pub struct NotFound;

} // verus!
