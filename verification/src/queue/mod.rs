//! Routing over bounded `crossbeam_channel` queues.

pub mod stage1;
pub mod traits;
