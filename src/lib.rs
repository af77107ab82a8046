use vstd::prelude::*;

pub mod dump;
pub mod hex;
pub mod lines;
pub mod row;
pub mod vt;

verus! {

} // verus!
