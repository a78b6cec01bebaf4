//! A small literal substring search over the lines of a text document.
use vstd::prelude::*;

pub mod config;
pub mod search;

verus! {

} // verus!
