//! What a strategy does with each delivered message: it checks that messages of
//! one producer and type arrive in sequence order, and counts them.
use crate::counters::{drained, window_step, RateWindow, SECOND_NS};
use crate::producer::nth_message;
use crate::types::{HandledMessage, Message};
use vstd::prelude::*;

verus! {

/// The last sequence number seen, per producer (outer) and message type (inner).
pub type SeqTable = Seq<Seq<u64>>;

/// The producer and the type of `m` index the 8-by-8 table of sequence numbers.
pub open spec fn has_table_key(m: Message) -> bool {
    m.producer_id < 8 && m.ty < 8
}

/// A table of 8 producers by 8 message types.
pub open spec fn is_full_table(last: SeqTable) -> bool {
    last.len() == 8 && forall|p: int| 0 <= p < 8 ==> (#[trigger] last[p]).len() == 8
}

/// The last sequence number seen for the producer and type of `m`.
pub open spec fn last_seq_of(last: SeqTable, m: Message) -> u64 {
    last[m.producer_id as int][m.ty as int]
}

/// `m` is out of order: its sequence number is not above the last one seen for
/// its producer and type.
pub open spec fn is_out_of_order(last: SeqTable, m: Message) -> bool {
    last_seq_of(last, m) >= m.seq
}

/// The table once `m` has been seen.
pub open spec fn record_seq(last: SeqTable, m: Message) -> SeqTable {
    last.update(m.producer_id as int, last[m.producer_id as int].update(m.ty as int, m.seq))
}

/// The table and the number of out-of-order messages after checking `msgs` in turn.
pub open spec fn replay(last: SeqTable, msgs: Seq<Message>) -> (SeqTable, nat)
    decreases msgs.len(),
{
    if msgs.len() == 0 {
        (last, 0)
    } else {
        let (table, errors) = replay(last, msgs.drop_last());
        (
            record_seq(table, msgs.last()),
            errors + if is_out_of_order(table, msgs.last()) {
                1nat
            } else {
                0nat
            },
        )
    }
}

/// `a` and `b` come from the same producer and have the same type.
pub open spec fn same_key(a: Message, b: Message) -> bool {
    a.producer_id == b.producer_id && a.ty == b.ty
}

proof fn lemma_record_keeps_shape(last: SeqTable, m: Message)
    requires
        is_full_table(last),
        has_table_key(m),
    ensures
        is_full_table(record_seq(last, m)),
        forall|k: Message|
            has_table_key(k) ==> #[trigger] last_seq_of(record_seq(last, m), k) == if same_key(k, m) {
                m.seq
            } else {
                last_seq_of(last, k)
            },
{
    let r = record_seq(last, m);
    assert forall|p: int| 0 <= p < 8 implies (#[trigger] r[p]).len() == 8 by {
        if p != m.producer_id {
            assert(r[p] == last[p]);
        }
    }
}

/// Replaying messages with table keys keeps the table 8 by 8, and leaves below
/// `bound` every entry that starts below it and that no message of its key
/// reaches.
proof fn lemma_replay_below(last: SeqTable, msgs: Seq<Message>, key: Message, bound: u64)
    requires
        is_full_table(last),
        has_table_key(key),
        forall|i: int| 0 <= i < msgs.len() ==> has_table_key(#[trigger] msgs[i]),
        last_seq_of(last, key) < bound,
        forall|i: int| 0 <= i < msgs.len() && same_key(#[trigger] msgs[i], key) ==> msgs[i].seq < bound,
    ensures
        is_full_table(replay(last, msgs).0),
        last_seq_of(replay(last, msgs).0, key) < bound,
    decreases msgs.len(),
{
    if msgs.len() > 0 {
        let prefix = msgs.drop_last();
        assert forall|i: int| 0 <= i < prefix.len() implies has_table_key(#[trigger] prefix[i]) by {
            assert(prefix[i] == msgs[i]);
        }
        assert forall|i: int| 0 <= i < prefix.len() && same_key(#[trigger] prefix[i], key) implies prefix[i].seq < bound by {
            assert(prefix[i] == msgs[i]);
        }
        lemma_replay_below(last, prefix, key, bound);
        let table = replay(last, prefix).0;
        assert(has_table_key(msgs[msgs.len() - 1]));
        lemma_record_keeps_shape(table, msgs.last());
        assert(last_seq_of(record_seq(table, msgs.last()), key) < bound);
    }
}

/// Law: messages that arrive in order, each with a sequence number above the
/// last one seen for its producer and type and above every earlier one of the
/// same producer and type, are never counted as out of order.
pub proof fn lemma_in_order_messages_pass(last: SeqTable, msgs: Seq<Message>)
    requires
        is_full_table(last),
        forall|i: int| 0 <= i < msgs.len() ==> has_table_key(#[trigger] msgs[i]),
        forall|i: int| 0 <= i < msgs.len() ==> last_seq_of(last, #[trigger] msgs[i]) < msgs[i].seq,
        forall|i: int, j: int|
            0 <= i < j < msgs.len() && same_key(#[trigger] msgs[i], #[trigger] msgs[j]) ==> msgs[i].seq
                < msgs[j].seq,
    ensures
        replay(last, msgs).1 == 0,
    decreases msgs.len(),
{
    if msgs.len() > 0 {
        let prefix = msgs.drop_last();
        let m = msgs.last();
        assert forall|i: int| 0 <= i < prefix.len() implies has_table_key(#[trigger] prefix[i]) by {
            assert(prefix[i] == msgs[i]);
        }
        assert forall|i: int| 0 <= i < prefix.len() implies last_seq_of(last, #[trigger] prefix[i]) < prefix[i].seq by {
            assert(prefix[i] == msgs[i]);
        }
        assert forall|i: int, j: int|
            0 <= i < j < prefix.len() && same_key(#[trigger] prefix[i], #[trigger] prefix[j]) implies prefix[i].seq
                < prefix[j].seq by {
            assert(prefix[i] == msgs[i]);
            assert(prefix[j] == msgs[j]);
        }
        lemma_in_order_messages_pass(last, prefix);
        assert(has_table_key(msgs[msgs.len() - 1]));
        assert(last_seq_of(last, msgs[msgs.len() - 1]) < m.seq);
        assert forall|i: int| 0 <= i < prefix.len() && same_key(#[trigger] prefix[i], m) implies prefix[i].seq < m.seq by {
            assert(prefix[i] == msgs[i]);
            assert(same_key(msgs[i], msgs[msgs.len() - 1]));
        }
        lemma_replay_below(last, prefix, m, m.seq);
    }
}

/// Replaying without an error keeps every key's entry at or above the sequence
/// number of each message of that key, and leaves the messages of each key in
/// strictly rising order.
proof fn lemma_clean_replay_rises(last: SeqTable, msgs: Seq<Message>)
    requires
        is_full_table(last),
        forall|i: int| 0 <= i < msgs.len() ==> has_table_key(#[trigger] msgs[i]),
        replay(last, msgs).1 == 0,
    ensures
        is_full_table(replay(last, msgs).0),
        forall|i: int| 0 <= i < msgs.len() ==> (#[trigger] msgs[i]).seq <= last_seq_of(replay(last, msgs).0, msgs[i]),
        forall|i: int, j: int|
            0 <= i < j < msgs.len() && same_key(#[trigger] msgs[i], #[trigger] msgs[j]) ==> msgs[i].seq
                < msgs[j].seq,
    decreases msgs.len(),
{
    if msgs.len() > 0 {
        let prefix = msgs.drop_last();
        let m = msgs.last();
        assert forall|i: int| 0 <= i < prefix.len() implies has_table_key(#[trigger] prefix[i]) by {
            assert(prefix[i] == msgs[i]);
        }
        lemma_clean_replay_rises(last, prefix);
        let table = replay(last, prefix).0;
        assert(has_table_key(msgs[msgs.len() - 1]));
        assert(!is_out_of_order(table, m));
        lemma_record_keeps_shape(table, m);
        assert(replay(last, msgs).0 == record_seq(table, m));
        assert forall|i: int| 0 <= i < msgs.len() implies (#[trigger] msgs[i]).seq <= last_seq_of(
            replay(last, msgs).0,
            msgs[i],
        ) by {
            if i < prefix.len() {
                assert(prefix[i] == msgs[i]);
                assert(has_table_key(msgs[i]));
            }
        }
        assert forall|i: int, j: int|
            0 <= i < j < msgs.len() && same_key(#[trigger] msgs[i], #[trigger] msgs[j]) implies msgs[i].seq
                < msgs[j].seq by {
            assert(prefix[i] == msgs[i]);
            if j < prefix.len() {
                assert(prefix[j] == msgs[j]);
            } else {
                assert(msgs[i].seq <= last_seq_of(table, prefix[i]));
            }
        }
    }
}

/// Law: a sequence number that does not rise is reported. Wherever two
/// messages of one producer and type arrive with the later one's sequence
/// number at most the earlier one's, checking the messages in turn counts at
/// least one error; so does a message whose number is at most the one already
/// recorded for its producer and type.
pub proof fn lemma_falling_sequence_is_reported(last: SeqTable, msgs: Seq<Message>)
    requires
        is_full_table(last),
        forall|i: int| 0 <= i < msgs.len() ==> has_table_key(#[trigger] msgs[i]),
    ensures
        forall|i: int, j: int|
            0 <= i < j < msgs.len() && same_key(#[trigger] msgs[i], #[trigger] msgs[j]) && msgs[j].seq
                <= msgs[i].seq ==> replay(last, msgs).1 >= 1,
        forall|m: Message|
            has_table_key(m) && #[trigger] last_seq_of(last, m) >= m.seq ==> replay(last, seq![m]).1 == 1,
        forall|m: Message|
            has_table_key(m) && #[trigger] last_seq_of(last, m) < m.seq ==> replay(last, seq![m]).1 == 0,
{
    if replay(last, msgs).1 == 0 {
        lemma_clean_replay_rises(last, msgs);
    }
    assert forall|m: Message| has_table_key(m) implies #[trigger] replay(last, seq![m]).1 == if last_seq_of(
        last,
        m,
    ) >= m.seq {
        1nat
    } else {
        0nat
    } by {
        let one = seq![m];
        assert(one.drop_last() =~= Seq::<Message>::empty());
        assert(one.last() == m);
        assert(replay(last, one.drop_last()) == (last, 0nat));
        assert(replay(last, one) == (
            record_seq(last, m),
            0nat + if is_out_of_order(last, m) {
                1nat
            } else {
                0nat
            },
        ));
    }
}

/// The table of a strategy that has seen nothing.
pub open spec fn fresh_table() -> SeqTable {
    Seq::new(8, |p: int| Seq::new(8, |t: int| 0u64))
}

/// Law: the messages of one producer, delivered in the order it emitted them
/// (any of them may have been lost on the way), pass a fresh strategy's order
/// check.
pub proof fn lemma_producer_stream_passes(
    id: u64,
    pattern: Seq<u64>,
    picks: Seq<nat>,
    stamps: Seq<u64>,
)
    requires
        id < 8,
        pattern.len() > 0,
        forall|i: int| 0 <= i < pattern.len() ==> #[trigger] pattern[i] < 8,
        stamps.len() == picks.len(),
        forall|i: int, j: int| 0 <= i < j < picks.len() ==> #[trigger] picks[i] < #[trigger] picks[j],
        forall|i: int| 0 <= i < picks.len() ==> #[trigger] picks[i] + 1 <= u64::MAX,
    ensures
        replay(
            fresh_table(),
            Seq::new(picks.len(), |i: int| nth_message(id, pattern, picks[i], stamps[i])),
        ).1 == 0,
{
    let msgs = Seq::new(picks.len(), |i: int| nth_message(id, pattern, picks[i], stamps[i]));
    assert forall|i: int| 0 <= i < msgs.len() implies has_table_key(#[trigger] msgs[i]) by {
        let k = (picks[i] % pattern.len()) as int;
        assert(0 <= k < pattern.len());
        assert(pattern[k] < 8);
    }
    assert forall|i: int| 0 <= i < msgs.len() implies last_seq_of(fresh_table(), #[trigger] msgs[i]) < msgs[i].seq by {
        assert(picks[i] + 1 <= u64::MAX);
    }
    assert forall|i: int, j: int|
        0 <= i < j < msgs.len() && same_key(#[trigger] msgs[i], #[trigger] msgs[j]) implies msgs[i].seq
            < msgs[j].seq by {
        assert(picks[i] < picks[j]);
        assert(picks[i] + 1 <= u64::MAX);
        assert(picks[j] + 1 <= u64::MAX);
    }
    lemma_in_order_messages_pass(fresh_table(), msgs);
}

/// Checks ordering and counts delivered messages for one strategy.
pub struct StrategyTracker {
    /// Last sequence number per producer and message type.
    pub seq_arr: [[u64; 8]; 8],
    /// Messages that came out of order.
    pub errors: usize,
    pub total_msg: u64,
    pub total_zero_msgs: u64,
    pub window: RateWindow,
}

impl StrategyTracker {
    /// The table of last sequence numbers.
    pub open spec fn seqs(&self) -> SeqTable {
        self.seq_arr@.map_values(|row: [u64; 8]| row@)
    }

    /// A tracker that has seen nothing: every last sequence number is 0.
    pub fn new() -> (res: Self)
        ensures
            res.seqs() == fresh_table(),
            res.errors == 0,
            res.total_msg == 0,
            res.total_zero_msgs == 0,
            res.window == RateWindow::empty(),
    {
        let row = [0u64; 8];
        assert(row@ =~= Seq::new(8, |t: int| 0u64));
        let seq_arr = [row; 8];
        assert(forall|p: int| 0 <= p < 8 ==> seq_arr@[p] == row);
        let res = StrategyTracker {
            seq_arr,
            errors: 0,
            total_msg: 0,
            total_zero_msgs: 0,
            window: RateWindow::new(),
        };
        assert(res.seqs() =~= Seq::new(8, |p: int| Seq::new(8, |t: int| 0u64)));
        res
    }

    /// Checks the order of a delivered message: counts an error when its
    /// sequence number is not above the last one seen for its producer and
    /// type, and records it as the last one. Returns the time from its creation
    /// to its processing.
    pub fn check_order(&mut self, item: &HandledMessage) -> (p_time: u64)
        requires
            has_table_key(item.msg),
            item.processing_ts >= item.msg.timestamp,
            old(self).errors < usize::MAX,
        ensures
            p_time == item.processing_ts - item.msg.timestamp,
            final(self).seqs() == record_seq(old(self).seqs(), item.msg),
            final(self).errors == old(self).errors + if is_out_of_order(old(self).seqs(), item.msg) {
                1int
            } else {
                0int
            },
            final(self).total_msg == old(self).total_msg,
            final(self).total_zero_msgs == old(self).total_zero_msgs,
            final(self).window == old(self).window,
    {
        let msg = item.msg;
        let p_time = item.processing_ts - msg.timestamp;
        let p = msg.producer_id as usize;
        let t = msg.ty as usize;
        let last = self.seq_arr[p][t];
        if last >= msg.seq {
            self.errors = self.errors + 1;
        }
        self.seq_arr[p][t] = msg.seq;
        assert(self.seqs() =~= record_seq(old(self).seqs(), msg));
        p_time
    }

    /// Counts a delivered message and advances the reporting window by the time
    /// spent on it; returns the counts of the second that has just ended, if any.
    pub fn delivered(&mut self, ty: u64, delta: u64) -> (res: Option<(u64, u64)>)
        requires
            old(self).total_msg < u64::MAX,
            old(self).window.msgs < u64::MAX,
            ty == 0 ==> old(self).total_zero_msgs < u64::MAX && old(self).window.zero_msgs < u64::MAX,
            old(self).window.nanos < SECOND_NS ==> old(self).window.nanos + delta <= u64::MAX,
        ensures
            final(self).total_msg == old(self).total_msg + 1,
            final(self).total_zero_msgs == old(self).total_zero_msgs + if ty == 0 {
                1int
            } else {
                0int
            },
            final(self).seqs() == old(self).seqs(),
            final(self).errors == old(self).errors,
            (final(self).window, res) == window_step(old(self).window, true, ty, delta),
    {
        self.total_msg = self.total_msg + 1;
        if ty == 0 {
            self.total_zero_msgs = self.total_zero_msgs + 1;
        }
        self.window.count(ty);
        self.window.tick(delta)
    }

    /// Hands out the counts that the reporting window still holds, at the end
    /// of the run, and empties it.
    pub fn drain(&mut self) -> (res: (u64, u64))
        ensures
            res == drained(old(self).window),
            final(self).window == RateWindow::empty(),
            final(self).seqs() == old(self).seqs(),
            final(self).errors == old(self).errors,
            final(self).total_msg == old(self).total_msg,
            final(self).total_zero_msgs == old(self).total_zero_msgs,
    {
        self.window.drain()
    }
}

} // verus!
