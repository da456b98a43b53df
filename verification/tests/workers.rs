use std::sync::atomic::Ordering;
use arrayvec::ArrayVec;
use hft::counters::RateWindow;
use hft::processor::{processing_time_for, processing_time_table, ProcessorTracker};
use hft::producer::{
    burst_pace, create_distribution_pattern, message_deadline, messages_in_ms, ms_spacing,
    steady_pace, BurstSchedule,
    ProducerState, PATTERN_SIZE,
};
use hft::strategy::StrategyTracker;
use hft::types::{HandledMessage, Message};

fn handled(ty: u64, producer_id: u64, seq: u64) -> HandledMessage {
    HandledMessage {
        msg: Message { ty, producer_id, seq, timestamp: 10 },
        processor_id: 0,
        processing_ts: 25,
    }
}

fn count_of(pattern: &[u64], ty: u64) -> usize {
    pattern.iter().filter(|t| **t == ty).count()
}

#[test]
fn rate_window_reports_once_a_second_has_passed() {
    let mut w = RateWindow::new();
    w.count(0);
    w.count(3);
    assert_eq!(w.tick(600_000_000), None);
    assert_eq!(w.tick(600_000_000), None);
    assert_eq!(w.nanos, 1_200_000_000);
    w.count(0);
    assert_eq!(w.tick(5), Some((3, 2)));
    assert_eq!((w.nanos, w.msgs, w.zero_msgs), (0, 0, 0));
}

#[test]
fn strategy_counts_messages_out_of_order() {
    let mut s = StrategyTracker::new();
    assert_eq!(s.check_order(&handled(1, 2, 1)), 15);
    s.check_order(&handled(1, 2, 2));
    s.check_order(&handled(1, 2, 2));
    s.check_order(&handled(1, 2, 1));
    s.check_order(&handled(1, 3, 1));
    s.check_order(&handled(2, 2, 1));
    assert_eq!(s.errors, 2);
    assert_eq!(s.seq_arr[2][1], 1);
}

#[test]
fn strategy_passes_a_producers_stream_with_gaps() {
    let mut s = StrategyTracker::new();
    for seq in [1, 2, 5, 9, 10, 40] {
        s.check_order(&handled(seq % 8, 4, seq));
    }
    assert_eq!(s.errors, 0);
}

#[test]
fn strategy_counts_deliveries_and_zero_type() {
    let mut s = StrategyTracker::new();
    assert_eq!(s.delivered(0, 400_000_000), None);
    assert_eq!(s.delivered(2, 700_000_000), None);
    assert_eq!(s.delivered(0, 1), Some((3, 2)));
    assert_eq!((s.total_msg, s.total_zero_msgs), (3, 2));
    assert_eq!(s.delivered(0, 5), None);
    assert_eq!(s.drain(), (1, 1));
    assert_eq!(s.drain(), (0, 0));
}

#[test]
fn processing_time_is_that_of_the_first_pair_for_the_type() {
    let mut times: ArrayVec<(u64, u64), 8> = ArrayVec::new();
    times.push((0, 100));
    times.push((2, 300));
    times.push((2, 999));
    assert_eq!(processing_time_for(&times, 0), Some(100));
    assert_eq!(processing_time_for(&times, 2), Some(300));
    assert_eq!(processing_time_for(&times, 1), None);
}

#[test]
fn processor_counts_failures_per_type() {
    let mut p = ProcessorTracker::new();
    assert_eq!(p.handled(3, false, 10), None);
    assert_eq!(p.handled(3, false, 10), None);
    assert_eq!(p.handled(0, true, 10), None);
    assert_eq!(p.handled(5, true, 10), None);
    assert_eq!(p.err_arr, [0, 0, 0, 2, 0, 0, 0, 0]);
    assert_eq!((p.total_msg, p.zero_msg), (2, 1));
    assert_eq!(p.window.msgs, 2);
}

#[test]
fn processor_window_reports_after_a_second() {
    let mut p = ProcessorTracker::new();
    assert_eq!(p.handled(0, true, 1_000_000_000), None);
    assert_eq!(p.handled(1, true, 7), Some((2, 1)));
    assert_eq!(p.window.nanos, 0);
}

#[test]
fn pattern_follows_the_distribution() {
    let pattern = create_distribution_pattern(&vec![(0, 50), (1, 30), (2, 20)]);
    assert_eq!(pattern.len(), PATTERN_SIZE);
    assert_eq!(count_of(&pattern, 0), 50);
    assert_eq!(count_of(&pattern, 1), 30);
    assert_eq!(count_of(&pattern, 2), 20);
}

#[test]
fn pattern_adds_counts_of_one_type() {
    let pattern = create_distribution_pattern(&vec![(4, 3), (5, 1), (4, 2)]);
    assert_eq!(pattern.len(), 6);
    assert_eq!(count_of(&pattern, 4), 5);
    assert_eq!(count_of(&pattern, 5), 1);
}

#[test]
fn pattern_is_cut_after_dealing_round_by_round() {
    let pattern = create_distribution_pattern(&vec![(0, 90), (1, 90)]);
    assert_eq!(pattern.len(), PATTERN_SIZE);
    assert_eq!(count_of(&pattern, 0), 50);
    assert_eq!(count_of(&pattern, 1), 50);
    let pattern = create_distribution_pattern(&vec![(0, 10), (1, 95)]);
    assert_eq!(count_of(&pattern, 0), 10);
    assert_eq!(count_of(&pattern, 1), 90);
}

#[test]
fn pattern_of_nothing_is_empty() {
    assert!(create_distribution_pattern(&vec![(3, 0)]).is_empty());
    assert!(create_distribution_pattern(&Vec::new()).is_empty());
}

#[test]
fn steady_pace_spreads_messages_over_each_millisecond() {
    assert_eq!(steady_pace(10, 1_000_000), (10_000, 1000, 0));
    assert_eq!(steady_pace(1, 1_500), (1000, 1, 500));
    assert_eq!(steady_pace(2, 500), (2000, 0, 500));
}

fn steady_total(duration_secs: u64, messages_per_sec: u64) -> u64 {
    let pace = steady_pace(duration_secs, messages_per_sec);
    (0..pace.0).map(|ms| messages_in_ms(pace, ms)).sum()
}

#[test]
fn steady_pace_sends_the_configured_rate() {
    assert_eq!(steady_total(1, 1_500), 1_500);
    assert_eq!(steady_total(3, 500), 1_500);
    assert_eq!(steady_total(2, 1_000_000), 2_000_000);
    let pace = steady_pace(1, 2_999);
    assert_eq!((messages_in_ms(pace, 0), messages_in_ms(pace, 998), messages_in_ms(pace, 999)), (3, 3, 2));
}

#[test]
fn burst_pace_and_deadlines() {
    let pace = burst_pace(500, 3);
    assert_eq!(pace, (500, 3, 333_333));
    assert_eq!(message_deadline(pace.2, 0), 333_333);
    assert_eq!(message_deadline(pace.2, 2), 999_999);
    assert_eq!(ms_spacing(2), 500_000);
}

#[test]
fn burst_schedule_runs_phases_only_while_they_fit() {
    let mut s = BurstSchedule::new(1, vec![(400, 1, 1), (300, 2, 2)]);
    assert_eq!(s.next_phase(), Some((400, 1, 1)));
    assert_eq!(s.next_phase(), Some((300, 2, 2)));
    assert_eq!((s.remaining_ms, s.next), (300, 0));
    assert_eq!(s.next_phase(), None);
    assert_eq!(s.remaining_ms, 300);
}

#[test]
fn burst_schedule_never_runs_past_the_duration() {
    let mut s = BurstSchedule::new(1, vec![(500, 1, 1_000_000)]);
    let mut phases = 0;
    while s.next_phase().is_some() {
        phases += 1;
    }
    assert_eq!(phases, 2);
}

#[test]
fn producer_numbers_messages_and_cycles_the_pattern() {
    let mut p = ProducerState::new(3, vec![2, 0, 1]);
    let types: Vec<u64> = (0..7).map(|i| p.next_message(100 + i).ty).collect();
    assert_eq!(types, vec![2, 0, 1, 2, 0, 1, 2]);
    assert_eq!((p.msg.ty, p.msg.producer_id, p.msg.seq, p.msg.timestamp), (2, 3, 7, 106));
}

#[test]
fn producer_counts_sends_and_failures() {
    let mut p = ProducerState::new(0, vec![0]);
    p.record_send(0, true);
    p.record_send(1, true);
    p.record_send(4, false);
    assert_eq!((p.total_msg, p.total_zero_msgs), (2, 1));
    assert_eq!(p.err_arr, [0, 0, 0, 0, 1, 0, 0, 0]);
}

#[test]
fn a_producers_stream_with_losses_passes_the_strategy() {
    let mut producer = ProducerState::new(2, vec![0, 1, 1, 3]);
    let mut strategy = StrategyTracker::new();
    for step in 0..40u64 {
        let m = producer.next_message(step);
        if step % 3 != 1 {
            strategy.check_order(&HandledMessage { msg: m, processor_id: 0, processing_ts: step });
        }
    }
    assert_eq!(strategy.errors, 0);
}

#[test]
fn replaying_a_message_is_an_ordering_error() {
    let mut producer = ProducerState::new(1, vec![4]);
    let mut strategy = StrategyTracker::new();
    let first = producer.next_message(0);
    let second = producer.next_message(1);
    for m in [first, second, first] {
        strategy.check_order(&HandledMessage { msg: m, processor_id: 0, processing_ts: 2 });
    }
    assert_eq!(strategy.errors, 1);
}

#[test]
fn reported_and_pending_counts_add_up_to_all_counted() {
    let mut p = ProcessorTracker::new();
    let mut reported = (0u64, 0u64);
    let events = [(0u64, true), (1, true), (2, false), (0, true), (3, true), (0, false), (5, true)];
    for (round, (ty, sent)) in events.iter().cycle().take(70).enumerate() {
        let delta = if round % 4 == 0 { 600_000_000 } else { 1 };
        if let Some((m, z)) = p.handled(*ty, *sent, delta) {
            reported.0 += m;
            reported.1 += z;
        }
    }
    assert!(reported.0 > 0);
    let pending = p.window.msgs;
    let (m, z) = p.drain();
    assert_eq!(m, pending);
    assert_eq!(reported.0 + m, p.total_msg);
    assert_eq!(reported.1 + z, p.zero_msg);
    assert_eq!((p.window.msgs, p.window.zero_msgs, p.window.nanos), (0, 0, 0));
}

#[test]
fn shared_counters_start_at_zero() {
    let c = hft::state::MessagesCounter::default();
    let d = c.clone();
    d.total.fetch_add(3, Ordering::SeqCst);
    assert_eq!(c.total.load(Ordering::SeqCst), 3);
    assert_eq!(c.zero.load(Ordering::SeqCst), 0);
}

#[test]
fn processing_time_table_holds_the_pairs_in_order() {
    let pairs = vec![(1, 10), (0, 5), (1, 99)];
    let table = processing_time_table(&pairs).unwrap();
    assert_eq!(table.as_slice(), pairs.as_slice());
    assert_eq!(processing_time_for(&table, 1), Some(10));
    assert!(processing_time_table(&(0..9).map(|t| (t, t)).collect()).is_none());
    assert_eq!(processing_time_table(&(0..8).map(|t| (t, t)).collect()).unwrap().len(), 8);
}

#[test]
fn producer_types_repeat_with_the_patterns_length() {
    let mut p = ProducerState::new(0, vec![3, 1, 4, 1, 5]);
    let sent: Vec<Message> = (0..23).map(|i| p.next_message(i)).collect();
    for k in 0..sent.len() - 5 {
        assert_eq!(sent[k].ty, sent[k + 5].ty);
    }
    for (k, m) in sent.iter().enumerate() {
        assert_eq!((m.seq, m.producer_id), (k as u64 + 1, 0));
    }
}
