pub mod cubes;
pub mod cubical;
pub mod edges;
pub mod lattice;
pub mod plaquettes;
