use vstd::prelude::*;

pub mod auth;
pub mod number;
pub mod posting;
pub mod report;
pub mod river;
pub mod roundtrip;
pub mod schedule;
pub mod text;

verus! {

} // verus!
