use vstd::prelude::*;

pub mod app_state;
pub mod lookup;
pub mod matrix;
pub mod utils;

verus! {

} // verus!
