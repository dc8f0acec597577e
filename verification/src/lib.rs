//! Benchmark result records, their validation and storage plans, benchmark
//! selection, and the state of the results viewer.
pub mod text;
pub mod sorted;
pub mod model;
pub mod store;
pub mod cli;
pub mod runner;
pub mod serve;
pub mod gui;
