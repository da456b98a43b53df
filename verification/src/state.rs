//! Counters that the workers of the pipeline share.
use std::sync::{atomic::AtomicU64, Arc};
use vstd::prelude::*;

verus! {

/// Messages counted by one kind of worker: all of them, and those of type 0.
#[derive(Clone, Default, Debug)]
pub struct MessagesCounter {
    pub total: Arc<AtomicU64>,
    pub zero: Arc<AtomicU64>,
}

} // verus!
