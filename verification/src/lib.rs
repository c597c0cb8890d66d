//! Z_N lattice gauge theory on cubical lattices: the gauge fields and their
//! derived plaquette and monopole data, the state of a Monte Carlo experiment,
//! the byte layout of its backups, and the bookkeeping of measurement runs.
pub mod arrays;
pub mod byte_order;
pub mod experiment;
pub mod file_names;
pub mod gauge_fields;
pub mod measurements;
pub mod sheduler;
pub mod simulation;
