use vstd::prelude::*;

pub mod checkpoint;
pub mod commands;
pub mod exclusion;
pub mod index;
pub mod metrics;
pub mod text;
pub mod walk;

verus! {

} // verus!
