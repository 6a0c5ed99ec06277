pub mod cli;
pub mod inserter;
pub mod laws;
pub mod model;
pub mod pipeline;
