//! Per-worker storage.

pub mod local;
