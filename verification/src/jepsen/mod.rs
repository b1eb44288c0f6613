//! Jepsen-style consistency testing: the operation and history model, the
//! consistency checkers, history analysis, workloads and fault bookkeeping.

pub mod model;
pub mod checkers;
pub mod history;
pub mod analyzer;
pub mod partition;
pub mod pool;
pub mod generators;
pub mod workloads;
pub mod operations;
pub mod nemesis;
pub mod store;
pub mod runner;
pub mod direct;
pub mod batched;
pub mod chaos;
