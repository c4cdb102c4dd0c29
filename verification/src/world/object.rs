use vstd::prelude::*;
use crate::mesh::Mesh;
use crate::position_map::Position;

verus! {

/// A rendered chunk placed in the world: its chunk position and its mesh.
pub struct Object {
    pub position: Position,
    pub mesh: Mesh,
}

} // verus!
