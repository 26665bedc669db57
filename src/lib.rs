use vstd::prelude::*;

pub mod error;
pub mod source;
pub mod ptr;
pub mod pipeline;

verus! {

} // verus!
