//! Verified core of a multi-stage message router: producers emit typed messages,
//! a first stage routes them to processors, a second stage routes processed
//! messages to strategies, which validate per-producer ordering.

pub mod channel;
pub mod config;
pub mod counters;
pub mod keys;
pub mod processor;
pub mod producer;
pub mod queue;
pub mod router;
pub mod sorting;
pub mod stage1;
pub mod stage2;
pub mod state;
pub mod strategy;
pub mod types;

