//! Per-second message counts that workers publish to the shared counters.
use vstd::prelude::*;

verus! {

/// Nanoseconds in a second: the length of a reporting window.
pub const SECOND_NS: u64 = 1_000_000_000;

/// Messages counted since the last report, and the time spent since then.
#[derive(Debug, Clone, Copy)]
pub struct RateWindow {
    pub nanos: u64,
    pub msgs: u64,
    pub zero_msgs: u64,
}

/// The window after counting a message of type `ty` (when `counted`) and then
/// advancing by `delta`, with the counts it hands out, if any.
pub open spec fn window_step(w: RateWindow, counted: bool, ty: u64, delta: u64) -> (RateWindow, Option<(u64, u64)>) {
    let c = if counted {
        RateWindow {
            msgs: (w.msgs + 1) as u64,
            zero_msgs: (w.zero_msgs + if ty == 0 {
                1int
            } else {
                0int
            }) as u64,
            ..w
        }
    } else {
        w
    };
    if c.nanos < SECOND_NS {
        (RateWindow { nanos: (c.nanos + delta) as u64, ..c }, None)
    } else {
        (RateWindow::empty(), Some((c.msgs, c.zero_msgs)))
    }
}

/// The window after a series of (counted, type, delta) events, with the
/// messages and type-0 messages it has handed out in total.
pub open spec fn run_window(w: RateWindow, events: Seq<(bool, u64, u64)>) -> (RateWindow, nat, nat)
    decreases events.len(),
{
    if events.len() == 0 {
        (w, 0, 0)
    } else {
        let (w1, msgs, zeros) = run_window(w, events.drop_last());
        let e = events.last();
        let (w2, out) = window_step(w1, e.0, e.1, e.2);
        match out {
            Some((m, z)) => (w2, msgs + m as nat, zeros + z as nat),
            None => (w2, msgs, zeros),
        }
    }
}

/// The events that count a message.
pub open spec fn counted_events(events: Seq<(bool, u64, u64)>) -> nat
    decreases events.len(),
{
    if events.len() == 0 {
        0
    } else {
        counted_events(events.drop_last()) + if events.last().0 {
            1nat
        } else {
            0nat
        }
    }
}

/// The events that count a message of type 0.
pub open spec fn counted_zero_events(events: Seq<(bool, u64, u64)>) -> nat
    decreases events.len(),
{
    if events.len() == 0 {
        0
    } else {
        counted_zero_events(events.drop_last()) + if events.last().0 && events.last().1 == 0 {
            1nat
        } else {
            0nat
        }
    }
}

/// What draining a window hands out: everything it still holds.
pub open spec fn drained(w: RateWindow) -> (u64, u64) {
    (w.msgs, w.zero_msgs)
}

/// Law: no counted message is lost or counted twice: what the window has
/// handed out at the ends of seconds, plus what draining it at the end of the
/// run hands out, is what it held at first plus what was counted since.
pub proof fn lemma_window_conserves_counts(w: RateWindow, events: Seq<(bool, u64, u64)>)
    requires
        w.msgs + counted_events(events) <= u64::MAX,
        w.zero_msgs + counted_zero_events(events) <= u64::MAX,
    ensures
        run_window(w, events).1 + drained(run_window(w, events).0).0 == w.msgs + counted_events(
            events,
        ),
        run_window(w, events).2 + drained(run_window(w, events).0).1 == w.zero_msgs
            + counted_zero_events(events),
    decreases events.len(),
{
    if events.len() > 0 {
        lemma_window_conserves_counts(w, events.drop_last());
    }
}

impl RateWindow {
    /// A window with no time and no messages in it.
    pub open spec fn empty() -> Self {
        RateWindow { nanos: 0, msgs: 0, zero_msgs: 0 }
    }

    /// An empty window.
    pub fn new() -> (res: Self)
        ensures
            res == RateWindow::empty(),
    {
        RateWindow { nanos: 0, msgs: 0, zero_msgs: 0 }
    }

    /// Counts one message; messages of type 0 are counted apart as well.
    pub fn count(&mut self, ty: u64)
        requires
            old(self).msgs < u64::MAX,
            ty == 0 ==> old(self).zero_msgs < u64::MAX,
        ensures
            final(self).msgs == old(self).msgs + 1,
            final(self).zero_msgs == old(self).zero_msgs + (if ty == 0 { 1int } else { 0int }),
            final(self).nanos == old(self).nanos,
    {
        self.msgs = self.msgs + 1;
        if ty == 0 {
            self.zero_msgs = self.zero_msgs + 1;
        }
    }

    /// Hands out everything the window holds and empties it, as at the end of a run.
    pub fn drain(&mut self) -> (res: (u64, u64))
        ensures
            res == drained(*old(self)),
            *final(self) == RateWindow::empty(),
    {
        let counts = (self.msgs, self.zero_msgs);
        *self = RateWindow::new();
        counts
    }

    /// Adds `delta` nanoseconds while the window is shorter than a second.
    /// Once it has reached a second, hands out the counts and starts over
    /// instead; `delta` is then not added.
    pub fn tick(&mut self, delta: u64) -> (res: Option<(u64, u64)>)
        requires
            old(self).nanos < SECOND_NS ==> old(self).nanos + delta <= u64::MAX,
        ensures
            old(self).nanos < SECOND_NS ==> res is None && *final(self) == (RateWindow {
                nanos: (old(self).nanos + delta) as u64,
                ..*old(self)
            }),
            old(self).nanos >= SECOND_NS ==> res == Some((old(self).msgs, old(self).zero_msgs))
                && *final(self) == RateWindow::empty(),
    {
        if self.nanos < SECOND_NS {
            self.nanos = self.nanos + delta;
            None
        } else {
            let counts = (self.msgs, self.zero_msgs);
            *self = RateWindow::new();
            Some(counts)
        }
    }
}

} // verus!
