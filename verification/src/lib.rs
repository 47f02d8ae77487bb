//! A verified model of a two-stage channel-download pipeline.
//!
//! Producers enumerate the videos of each configured channel and emit one
//! work item per video onto a shared queue; a pool of workers drains the
//! queue and hands each item to an external download tool. A per-channel
//! archive ledger records already-downloaded videos so that re-running the
//! pipeline performs no redundant transfers.
//!
//! This crate holds the pipeline's decision logic and a sequential model of
//! its run, both verified; the surrounding process (configuration parsing,
//! task spawning, the network calls of the download tool) lives outside it.

pub mod identity;
pub mod items;
pub mod laws;
pub mod ledger;
pub mod outcome;
pub mod pipeline;
pub mod queue;
