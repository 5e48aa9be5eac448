//! The window-management core of one workspace of a compositor: which placement layer owns
//! each window, minimize and restore, the animated fullscreen overlay with its commit
//! blockers, output affinity, and per-frame composition.
use vstd::prelude::*;

pub mod affinity;
pub mod animation;
pub mod blur;
pub mod focus;
pub mod geometry;
pub mod layout;
pub mod render;
pub mod signal;
pub mod stable_id;
pub mod workspace;

verus! {

} // verus!
