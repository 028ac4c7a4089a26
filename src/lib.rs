use vstd::prelude::*;

pub mod builder;
pub mod config;
pub mod sdk;
pub mod text;

verus! {

} // verus!
