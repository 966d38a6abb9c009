use vstd::prelude::*;

pub mod cli;
pub mod config;
pub mod log;
pub mod metrics;
pub mod pump;
pub mod sys;
pub mod text;
pub mod update;

verus! {
} // verus!
