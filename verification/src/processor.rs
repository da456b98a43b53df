//! What a processor does with each message: it looks up the processing time of
//! the message's type and counts what it forwards and what it cannot.
use crate::counters::{drained, window_step, RateWindow, SECOND_NS};
use arrayvec::ArrayVec;
use vstd::prelude::*;

verus! {

/// A vector of fixed capacity from `arrayvec`.
#[verifier::external_type_specification]
#[verifier::external_body]
#[verifier::reject_recursive_types(T)]
pub struct ExArrayVec<T, const CAP: usize>(ArrayVec<T, CAP>);

/// The (message type, processing time) pairs that a processing-time table holds, in order.
pub uninterp spec fn time_table(a: ArrayVec<(u64, u64), 8>) -> Seq<(u64, u64)>;

/// Calls `ArrayVec::as_slice`: the elements of the table, in order.
#[verifier::external_body]
fn time_table_slice(a: &ArrayVec<(u64, u64), 8>) -> (res: &[(u64, u64)])
    ensures
        res@ == time_table(*a),
{
    a.as_slice()
}

/// Calls `ArrayVec::try_from` on a slice: a table holding the pairs, in order,
/// when they fit in its capacity of eight; the capacity error otherwise.
#[verifier::external_body]
fn time_table_from_slice(pairs: &[(u64, u64)]) -> (res: Option<ArrayVec<(u64, u64), 8>>)
    ensures
        res is Some <==> pairs@.len() <= 8,
        res matches Some(a) ==> time_table(a) == pairs@,
{
    ArrayVec::try_from(pairs).ok()
}

/// The processing-time table of a processor: the (message type, time) pairs
/// in order, or `None` where there are more than eight of them.
pub fn processing_time_table(pairs: &Vec<(u64, u64)>) -> (res: Option<ArrayVec<(u64, u64), 8>>)
    ensures
        res is Some <==> pairs@.len() <= 8,
        res matches Some(a) ==> time_table(a) == pairs@,
{
    time_table_from_slice(pairs.as_slice())
}

/// The processing time of the first pair for message type `ty`.
pub open spec fn first_time_for(times: Seq<(u64, u64)>, ty: u64) -> Option<u64>
    decreases times.len(),
{
    if times.len() == 0 {
        None
    } else if times[0].0 == ty {
        Some(times[0].1)
    } else {
        first_time_for(times.drop_first(), ty)
    }
}

/// Law: the lookup finds the first pair for a type. Where some pair names
/// `ty`, it gives the time of the first such pair; where none does, nothing.
pub proof fn lemma_first_time_for_finds(times: Seq<(u64, u64)>, ty: u64)
    ensures
        (first_time_for(times, ty) is None) <==> (forall|i: int| 0 <= i < times.len() ==> (#[trigger] times[i]).0 != ty),
        forall|i: int|
            0 <= i < times.len() && (#[trigger] times[i]).0 == ty && (forall|j: int| 0 <= j < i ==> (#[trigger] times[j]).0 != ty)
                ==> first_time_for(times, ty) == Some(times[i].1),
    decreases times.len(),
{
    if times.len() > 0 {
        let rest = times.drop_first();
        lemma_first_time_for_finds(rest, ty);
        assert forall|i: int| 0 <= i < rest.len() implies rest[i] == #[trigger] times[i + 1] by {}
        if times[0].0 != ty {
            assert forall|i: int|
                0 <= i < times.len() && (#[trigger] times[i]).0 == ty && (forall|j: int| 0 <= j < i ==> (#[trigger] times[j]).0 != ty)
                    implies first_time_for(times, ty) == Some(times[i].1) by {
                assert(i > 0);
                assert(rest[i - 1] == times[i]);
                assert forall|j: int| 0 <= j < i - 1 implies (#[trigger] rest[j]).0 != ty by {
                    assert(rest[j] == times[j + 1]);
                }
            }
            if first_time_for(times, ty) is None {
                assert forall|i: int| 0 <= i < times.len() implies (#[trigger] times[i]).0 != ty by {
                    if i > 0 {
                        assert(rest[i - 1] == times[i]);
                    }
                }
            } else {
                let i = choose|i: int| 0 <= i < rest.len() && (#[trigger] rest[i]).0 == ty;
                assert(times[i + 1] == rest[i]);
            }
        } else {
            assert forall|i: int|
                0 <= i < times.len() && (#[trigger] times[i]).0 == ty && (forall|j: int| 0 <= j < i ==> (#[trigger] times[j]).0 != ty)
                    implies first_time_for(times, ty) == Some(times[i].1) by {
                if i > 0 {
                    assert(times[0].0 != ty);
                }
            }
        }
    }
}

/// The processing time of message type `ty`: that of the first pair for it,
/// or `None` where no pair names it.
pub fn processing_time_for(times: &ArrayVec<(u64, u64), 8>, ty: u64) -> (res: Option<u64>)
    ensures
        res == first_time_for(time_table(*times), ty),
        (res is None) <==> (forall|i: int|
            0 <= i < time_table(*times).len() ==> (#[trigger] time_table(*times)[i]).0 != ty),
        forall|i: int|
            0 <= i < time_table(*times).len() && (#[trigger] time_table(*times)[i]).0 == ty && (forall|j: int|
                0 <= j < i ==> (#[trigger] time_table(*times)[j]).0 != ty) ==> res == Some(time_table(*times)[i].1),
{
    proof {
        lemma_first_time_for_finds(time_table(*times), ty);
    }
    let pairs = time_table_slice(times);
    let mut i: usize = 0;
    assert(pairs@.skip(0) =~= pairs@);
    while i < pairs.len()
        invariant
            i <= pairs@.len(),
            pairs@ == time_table(*times),
            first_time_for(pairs@, ty) == first_time_for(pairs@.skip(i as int), ty),
        decreases pairs@.len() - i,
    {
        assert(pairs@.skip(i as int).drop_first() =~= pairs@.skip(i as int + 1));
        let (t, ns) = pairs[i];
        if t == ty {
            proof {
                lemma_first_time_for_finds(time_table(*times), ty);
            }
            return Some(ns);
        }
        i = i + 1;
    }
    None
}

/// Counts what one processor forwards and what it fails to forward.
pub struct ProcessorTracker {
    /// Messages that could not be forwarded, per message type.
    pub err_arr: [u64; 8],
    pub total_msg: u64,
    pub zero_msg: u64,
    pub window: RateWindow,
}

impl ProcessorTracker {
    /// A tracker that has counted nothing.
    pub fn new() -> (res: Self)
        ensures
            res.err_arr@ == Seq::new(8, |t: int| 0u64),
            res.total_msg == 0,
            res.zero_msg == 0,
            res.window == RateWindow::empty(),
    {
        let err_arr = [0u64; 8];
        assert(err_arr@ =~= Seq::new(8, |t: int| 0u64));
        ProcessorTracker { err_arr, total_msg: 0, zero_msg: 0, window: RateWindow::new() }
    }

    /// Counts a message of type `ty` as forwarded (`sent`) or failed, and
    /// advances the reporting window by the time spent on it; returns the
    /// counts of the second that has just ended, if any.
    pub fn handled(&mut self, ty: u64, sent: bool, delta: u64) -> (res: Option<(u64, u64)>)
        requires
            !sent ==> ty < 8 && old(self).err_arr@[ty as int] < u64::MAX,
            sent ==> old(self).total_msg < u64::MAX && old(self).window.msgs < u64::MAX,
            sent && ty == 0 ==> old(self).zero_msg < u64::MAX && old(self).window.zero_msgs < u64::MAX,
            old(self).window.nanos < SECOND_NS ==> old(self).window.nanos + delta <= u64::MAX,
        ensures
            final(self).err_arr@ == if sent {
                old(self).err_arr@
            } else {
                old(self).err_arr@.update(ty as int, (old(self).err_arr@[ty as int] + 1) as u64)
            },
            final(self).total_msg == old(self).total_msg + if sent {
                1int
            } else {
                0int
            },
            final(self).zero_msg == old(self).zero_msg + if sent && ty == 0 {
                1int
            } else {
                0int
            },
            (final(self).window, res) == window_step(old(self).window, sent, ty, delta),
    {
        if !sent {
            let t = ty as usize;
            self.err_arr[t] = self.err_arr[t] + 1;
        } else {
            self.total_msg = self.total_msg + 1;
            self.window.count(ty);
            if ty == 0 {
                self.zero_msg = self.zero_msg + 1;
            }
        }
        self.window.tick(delta)
    }

    /// Hands out the counts that the reporting window still holds, at the end
    /// of the run, and empties it.
    pub fn drain(&mut self) -> (res: (u64, u64))
        ensures
            res == drained(old(self).window),
            final(self).window == RateWindow::empty(),
            final(self).err_arr == old(self).err_arr,
            final(self).total_msg == old(self).total_msg,
            final(self).zero_msg == old(self).zero_msg,
    {
        self.window.drain()
    }
}

} // verus!
