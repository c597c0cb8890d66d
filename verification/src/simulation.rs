//! What a two-dimensional simulation reports after an accepted update.
use vstd::prelude::*;

verus! {

/// The cells changed by an accepted update: the edge with its new phase and
/// the faces of that edge with their new holonomies.
#[derive(Debug)]
pub struct Package2D {
    pub edges: Vec<([usize; 3], usize)>,
    pub plaquettes: Vec<([usize; 3], usize)>,
}

} // verus!
