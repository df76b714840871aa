//! Work distribution for batches of independent, expensive recognition calls:
//! selecting jobs, splitting them into batches, caching one engine per
//! execution unit, supervising worker processes and measuring throughput.

pub mod jobs;
pub mod partition;
pub mod engine;
pub mod dispatch;
pub mod orchestrator;
pub mod report;
pub mod batch_file;
