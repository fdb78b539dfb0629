//! Hidden-text dot plates: disk packing, mask classification and palette
//! colouring, with the geometry kept in exact integer arithmetic.
pub mod geometry;
pub mod circle;
pub mod random;
pub mod packer;
pub mod classify;
pub mod color;
pub mod canvas;
pub mod compose;
pub mod plate;

use vstd::prelude::*;

verus! {

} // verus!
