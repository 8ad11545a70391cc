use vstd::prelude::*;

pub mod texture;
pub mod chunks;
pub mod grid;
pub mod hud;

verus! {
} // verus!
