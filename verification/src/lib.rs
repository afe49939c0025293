//! Verified core of a developer disk-space cleaner: the rules that decide
//! which directories and caches are cleanup candidates, how candidates are
//! ordered and totalled, how Docker size reports are read, and how cleanup
//! outcomes are tallied.
use vstd::prelude::*;

pub mod cleanup;
pub mod clock;
pub mod docker;
pub mod items;
pub mod laws;
pub mod model;
pub mod patterns;
pub mod roots;
pub mod scan;
pub mod size;
pub mod tally;
pub mod text;

verus! {

} // verus!
