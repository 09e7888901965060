//! Zero-knowledge Hamming distance: the arithmetic of the distance, the
//! circuit's constraints and witness, and the checks around the proving backend.
use vstd::prelude::*;

pub mod bits;
pub mod distance;
pub mod circuit;
pub mod backend;

verus! {

} // verus!
