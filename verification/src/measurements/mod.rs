pub mod backup;
pub mod measurement_types;
pub mod rng_gen_wrapper;
pub mod settings;
pub mod sheduler;
pub mod zipper;
