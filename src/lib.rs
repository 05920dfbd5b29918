//! Selecting files of a project and assembling them, under a directory
//! tree, into one text: ignore rules, the two tree traversals, the settings
//! file and its migration, and the output with its token estimate.
use vstd::prelude::*;

pub mod config;
pub mod filter;
pub mod laws;
pub mod models;
pub mod output;
pub mod patterns;
pub mod roundtrip;
pub mod text;
pub mod tree;

verus! {

} // verus!
