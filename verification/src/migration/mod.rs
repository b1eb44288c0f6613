//! Data migration between vector databases: record model, validation,
//! file formats, progress and checkpoint bookkeeping, and strategies.

pub mod model;
pub mod validation;
pub mod formats;
pub mod binary;
pub mod progress;
pub mod clients;
pub mod parquet;
pub mod checkpoint;
pub mod simd;
pub mod cli;
pub mod readers;
pub mod transform;
pub mod manager;
pub mod streaming;
