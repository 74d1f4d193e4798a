//! Chess tutoring backend: puzzle and opening catalog rules, attempt
//! statistics, score normalization and chat request construction.
pub mod catalog;
pub mod chat;
pub mod engine;
pub mod seed;
pub mod stats;
