pub mod backup;
pub mod experiment;
