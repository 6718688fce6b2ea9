use vstd::prelude::*;

pub mod bus;
pub mod drivers;
pub mod experiments;
pub mod kernel;
pub mod maker_milestone;
pub mod prediction_market;
pub mod sdk;
pub mod skill;
pub mod text;
pub mod tool;

verus! {

} // verus!
