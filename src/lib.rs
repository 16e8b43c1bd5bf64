//! A multi-core throughput harness for filesystem-like operations: run
//! specifications, the benchmark descriptor, the worker-side bookkeeping of a
//! timed run, and the DRPC wire codec for remote file operations.

pub mod wire;
pub mod drpc;
pub mod args;
pub mod bench;
pub mod meter;
pub mod barrier;
pub mod files;
pub mod mix;
pub mod topology;
pub mod report;
