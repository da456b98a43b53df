//! Routing over single-producer single-consumer ring buffers: each stage polls
//! its inbound buffers in turn and forwards what it finds by message type.
use vstd::prelude::*;

pub mod stage1;
pub mod stage2;
pub mod traits;

verus! {

/// What a stage does with the inbound buffer it is looking at.
#[derive(Debug, Clone, Copy, PartialEq, Eq, Structural)]
pub enum Poll {
    /// Take every message the buffer holds.
    Drain,
    /// Go on to the next buffer.
    Skip,
    /// Every inbound buffer has been seen closed: the stage is done.
    Stop,
}

/// Every inbound buffer has been seen closed.
pub open spec fn all_closed(closed: Seq<bool>) -> bool {
    forall|i: int| 0 <= i < closed.len() ==> #[trigger] closed[i]
}

/// Which inbound buffers a stage has seen empty after their writer was gone.
/// Such a buffer will never hold a message again.
pub struct RingWatch {
    pub closed: Vec<bool>,
}

impl RingWatch {
    /// A watch over `rings` inbound buffers, none of them seen closed yet.
    pub fn new(rings: usize) -> (res: Self)
        ensures
            res.closed@ == Seq::new(rings as nat, |i: int| false),
    {
        let mut closed: Vec<bool> = Vec::new();
        let mut i: usize = 0;
        while i < rings
            invariant
                i <= rings,
                closed@ == Seq::new(i as nat, |k: int| false),
            decreases rings - i,
        {
            closed.push(false);
            assert(closed@ =~= Seq::new((i + 1) as nat, |k: int| false));
            i = i + 1;
        }
        RingWatch { closed }
    }

    /// Whether every inbound buffer has been seen closed: the stage is done.
    pub fn done(&self) -> (res: bool)
        ensures
            res == all_closed(self.closed@),
    {
        let mut i: usize = 0;
        while i < self.closed.len()
            invariant
                i <= self.closed@.len(),
                forall|k: int| 0 <= k < i ==> #[trigger] self.closed@[k],
            decreases self.closed@.len() - i,
        {
            if !self.closed[i] {
                return false;
            }
            i = i + 1;
        }
        true
    }

    /// Decides what to do with inbound buffer `ring`, given whether its writer
    /// is gone (`abandoned`, looked at first) and whether it is then empty.
    /// A buffer that is empty after its writer left is marked closed, once;
    /// the stage stops exactly when every buffer is marked closed.
    pub fn poll(&mut self, ring: usize, empty: bool, abandoned: bool) -> (res: Poll)
        requires
            ring < old(self).closed@.len(),
        ensures
            !empty ==> res == Poll::Drain && final(self).closed@ == old(self).closed@,
            empty && !abandoned ==> res == Poll::Skip && final(self).closed@ == old(self).closed@,
            empty && abandoned ==> final(self).closed@ == old(self).closed@.update(ring as int, true)
                && res == if all_closed(final(self).closed@) {
                Poll::Stop
            } else {
                Poll::Skip
            },
    {
        if !empty {
            return Poll::Drain;
        }
        if !abandoned {
            return Poll::Skip;
        }
        self.closed.set(ring, true);
        if self.done() {
            Poll::Stop
        } else {
            Poll::Skip
        }
    }
}

} // verus!
