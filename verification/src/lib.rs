//! Core logic for a build-failure notifier that watches jobs on a Hydra
//! build farm: expanding job specifications into concrete job names,
//! discovering the latest build of a job from its status page, tracking the
//! last-known status of every job so that newly failing builds can be told
//! apart, resolving maintainers to the packages they maintain, and producing
//! the report text.  All network and storage I/O lives outside this crate;
//! these modules work on plain values.

pub mod hydra;
pub mod jobs;
pub mod maintainers;
pub mod pipeline;
pub mod report;
pub mod scan;
pub mod state;
