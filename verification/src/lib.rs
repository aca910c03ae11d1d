//! Execution profiling for smart-contract invocations, with the request and
//! paging rules of the contract registry around it.
//!
//! The [`profiler`] module records nested calls against a clock, freezes
//! a run into a [`profiler::ProfileData`], compares and charts such
//! snapshots, and draws advice from them.

pub mod clock;
pub mod incidents;
pub mod profiler;
pub mod registry;
pub mod text;
