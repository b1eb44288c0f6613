//! Verified core of the RTDB vector database tooling: the Jepsen-style
//! consistency checkers and history analysis, and the data-migration
//! validation, formats and progress logic.

#![allow(unused_imports)]

pub mod text;
pub mod random;
pub mod types;
pub mod json;
pub mod sorting;
pub mod digraph;
pub mod jepsen;
pub mod migration;
pub mod k8s;
pub mod multimodal;
