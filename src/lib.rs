use vstd::prelude::*;

pub mod orbital;
pub mod polynomials;
pub mod sampling;

verus! {

} // verus!
