//! The parameter type of the hidden function of sealed traits.

use vstd::prelude::*;

verus! {

/// Used as a parameter of the hidden function in sealed traits.
#[derive(Debug)]
pub struct Internal;

} // verus!
