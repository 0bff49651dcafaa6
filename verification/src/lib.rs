//! Verified byte-level logic of a set of Ruby layout and lint cops.
use vstd::prelude::*;

pub mod ascii;
pub mod bytes;
pub mod code_map;
pub mod cop;
pub mod diagnostic;
pub mod text;

verus! {

} // verus!
