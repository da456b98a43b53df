use vstd::prelude::*;

verus! {

/// A message emitted by a producer.
#[derive(Debug, Clone, Copy)]
pub struct Message {
    /// Message type, 0-7.
    pub ty: u64,
    pub producer_id: u64,
    /// Incrementing per producer.
    pub seq: u64,
    pub timestamp: u64,
}

/// A message after a processor has handled it.
#[derive(Debug, Clone, Copy)]
pub struct HandledMesage {
    pub msg: Message,
    pub processor_id: u64,
    pub processing_ts: u64,
}

/// The name the rest of the crate uses for a handled message.
pub type HandledMessage = HandledMesage;

} // verus!
