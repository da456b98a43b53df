use crossbeam_channel::{bounded, Receiver, Sender};
use hft::config::{Stage1Rule, Stage2Rule};
use hft::queue::stage1::Stage1Queue;
use hft::queue::traits::QueueProcessorSender;
use hft::router::stage1::{msg_type_to_processor, processor_for};
use hft::router::stage2::{msg_type_to_strategy, strategy_for};
use hft::router::traits::gives_up;
use hft::router::{Poll, RingWatch};
use hft::stage1::Stage1;
use hft::types::{HandledMessage, Message};

fn channels<T>(n: usize, cap: usize) -> (Vec<Sender<T>>, Vec<Receiver<T>>) {
    (0..n).map(|_| bounded(cap)).unzip()
}

fn msg(ty: u64, producer_id: u64, seq: u64) -> Message {
    Message { ty, producer_id, seq, timestamp: 0 }
}

fn rule(msg_type: u64, processors: &[u64]) -> Stage1Rule {
    Stage1Rule { msg_type, processors: processors.to_vec() }
}

fn lengths<T>(receivers: &[Receiver<T>]) -> Vec<usize> {
    receivers.iter().map(|r| r.len()).collect()
}

#[test]
fn stage1_queue_routes_by_type_after_sorting_rules() {
    let (senders, receivers) = channels::<Message>(3, 10);
    let rules = vec![rule(1, &[2]), rule(0, &[0])];
    let queue = Stage1Queue::new(senders, rules);
    assert!(queue.send(msg(0, 5, 1)));
    assert!(queue.send(msg(1, 5, 2)));
    assert!(queue.send(msg(1, 6, 3)));
    assert_eq!(lengths(&receivers), vec![1, 0, 2]);
    assert_eq!(receivers[2].recv().unwrap().seq, 2);
    assert_eq!(receivers[2].recv().unwrap().seq, 3);
}

#[test]
fn stage1_queue_routes_by_type_when_types_are_missing() {
    let (senders, receivers) = channels::<Message>(3, 10);
    let queue = Stage1Queue::new(senders, vec![rule(1, &[1]), rule(2, &[2])]);
    assert!(!queue.accepts(&msg(0, 0, 1)));
    assert!(queue.send(msg(1, 0, 1)));
    assert!(queue.send(msg(2, 0, 2)));
    assert_eq!(lengths(&receivers), vec![0, 1, 1]);
    assert_eq!(receivers[1].recv().unwrap().ty, 1);
}

#[test]
fn stage1_queue_takes_the_last_rule_of_a_type() {
    let (senders, receivers) = channels::<Message>(2, 10);
    let queue = Stage1Queue::new(senders, vec![rule(4, &[0]), rule(4, &[1])]);
    assert!(queue.send(msg(4, 0, 1)));
    assert_eq!(lengths(&receivers), vec![0, 1]);
}

#[test]
fn both_first_stages_pick_the_same_channel() {
    let (senders, _receivers) = channels::<Message>(3, 10);
    let rules = vec![rule(0, &[0, 1, 2]), rule(3, &[2])];
    let queue = Stage1Queue::new(senders.clone(), rules.clone());
    let stage = Stage1::new(senders, rules);
    for (ty, producer) in [(0, 0), (0, 1), (0, 5), (3, 7)] {
        let m = msg(ty, producer, 1);
        assert!(queue.route(&m).same_channel(stage.route(&m)));
    }
}

#[test]
fn stage1_queue_spreads_producers_over_a_rules_processors() {
    let (senders, receivers) = channels::<Message>(3, 10);
    let queue = Stage1Queue::new(senders, vec![rule(0, &[0, 1, 2])]);
    for producer in 0..6 {
        assert!(queue.send(msg(0, producer, 1)));
    }
    assert_eq!(lengths(&receivers), vec![2, 2, 2]);
    assert!(queue.route(&msg(0, 4, 1)).same_channel(queue.route(&msg(0, 1, 9))));
    assert!(!queue.route(&msg(0, 4, 1)).same_channel(queue.route(&msg(0, 5, 1))));
}

#[test]
fn stage1_queue_keeps_one_producer_and_type_in_one_queue() {
    let (senders, receivers) = channels::<Message>(2, 10);
    let queue = Stage1Queue::new(senders, vec![rule(0, &[0, 1])]);
    for seq in 1..=4 {
        assert!(queue.send(msg(0, 3, seq)));
    }
    assert_eq!(lengths(&receivers), vec![0, 4]);
    let seqs: Vec<u64> = receivers[1].try_iter().map(|m| m.seq).collect();
    assert_eq!(seqs, vec![1, 2, 3, 4]);
}

#[test]
fn stage1_queue_reports_a_full_queue() {
    let (senders, _receivers) = channels::<Message>(1, 1);
    let queue = Stage1Queue::new(senders, vec![rule(0, &[0])]);
    assert!(queue.send(msg(0, 0, 1)));
    assert!(!queue.send(msg(0, 0, 2)));
}

#[test]
fn stage1_queue_reports_a_closed_queue() {
    let (senders, receivers) = channels::<Message>(1, 4);
    drop(receivers);
    let queue = Stage1Queue::new(senders, vec![rule(0, &[0])]);
    assert!(!queue.send(msg(0, 0, 1)));
}

#[test]
fn stage1_queue_accepts_only_types_with_a_route() {
    let (senders, _receivers) = channels::<Message>(1, 4);
    let queue = Stage1Queue::new(senders, vec![rule(0, &[0]), rule(1, &[])]);
    assert!(queue.accepts(&msg(0, 0, 1)));
    assert!(!queue.accepts(&msg(1, 0, 1)));
    assert!(!queue.accepts(&msg(2, 0, 1)));
}

#[test]
fn stage1_queue_ignores_rules_for_types_beyond_the_table() {
    let (senders, receivers) = channels::<Message>(2, 4);
    let queue = Stage1Queue::new(senders.clone(), vec![rule(9, &[1]), rule(0, &[0])]);
    assert!(queue.accepts(&msg(0, 0, 1)));
    assert!(!queue.accepts(&msg(9, 0, 1)));
    assert!(queue.send(msg(0, 0, 1)));
    assert_eq!(lengths(&receivers), vec![1, 0]);
    let stage = Stage1::new(senders, vec![rule(8, &[0]), rule(7, &[1])]);
    assert!(!stage.accepts(&msg(8, 0, 1)));
    assert!(stage.accepts(&msg(7, 0, 1)));
}

#[test]
fn stage1_routes_like_the_queue_stage() {
    let (senders, receivers) = channels::<Message>(2, 10);
    let stage = Stage1::new(senders, vec![rule(1, &[0, 1]), rule(0, &[1])]);
    assert!(stage.accepts(&msg(1, 3, 1)));
    assert!(!stage.accepts(&msg(2, 3, 1)));
    assert!(stage.send(msg(0, 0, 1)));
    assert!(stage.send(msg(1, 2, 1)));
    assert!(stage.send(msg(1, 3, 1)));
    assert_eq!(lengths(&receivers), vec![1, 2]);
}

fn handled(ty: u64) -> HandledMessage {
    HandledMessage { msg: msg(ty, 0, 1), processor_id: 0, processing_ts: 0 }
}

#[test]
fn queue_processor_sender_uses_the_first_rule_for_a_type() {
    let (senders, receivers) = channels::<HandledMessage>(2, 10);
    let sender = QueueProcessorSender {
        queues: senders,
        rules: vec![
            Stage2Rule { msg_type: 0, strategy: 1, ordering_required: true },
            Stage2Rule { msg_type: 0, strategy: 0, ordering_required: true },
            Stage2Rule { msg_type: 1, strategy: 0, ordering_required: false },
        ],
    };
    assert!(sender.send(handled(0)));
    assert!(sender.send(handled(1)));
    assert_eq!(lengths(&receivers), vec![1, 1]);
    assert!(sender.route(&handled(0)).same_channel(&receivers_sender_check(&sender, 1)));
}

fn receivers_sender_check(sender: &QueueProcessorSender, strategy: usize) -> Sender<HandledMessage> {
    sender.queues[strategy].clone()
}

#[test]
fn queue_processor_sender_knows_only_named_types_with_queues() {
    let (senders, _receivers) = channels::<HandledMessage>(1, 10);
    let sender = QueueProcessorSender {
        queues: senders,
        rules: vec![
            Stage2Rule { msg_type: 0, strategy: 0, ordering_required: true },
            Stage2Rule { msg_type: 1, strategy: 4, ordering_required: true },
        ],
    };
    assert!(sender.accepts(&handled(0)));
    assert!(!sender.accepts(&handled(1)));
    assert!(!sender.accepts(&handled(2)));
}

#[test]
fn processor_table_takes_the_last_rule_and_first_processor() {
    let rules = vec![rule(3, &[1, 2]), rule(5, &[4]), rule(3, &[6, 0])];
    assert_eq!(msg_type_to_processor(&rules), [0, 0, 0, 6, 0, 4, 0, 0]);
}

#[test]
fn ring_stages_forward_by_the_entry_of_the_type() {
    let processors = msg_type_to_processor(&vec![rule(3, &[6]), rule(5, &[4])]);
    assert_eq!(processor_for(&processors, &msg(3, 9, 1)), 6);
    assert_eq!(processor_for(&processors, &msg(5, 9, 1)), 4);
    assert_eq!(processor_for(&processors, &msg(2, 9, 1)), 0);
    let strategies = msg_type_to_strategy(&vec![Stage2Rule { msg_type: 7, strategy: 2, ordering_required: true }]);
    assert_eq!(strategy_for(&strategies, &handled(7)), 2);
    assert_eq!(strategy_for(&strategies, &handled(6)), 0);
}

#[test]
fn strategy_table_takes_the_last_rule() {
    let rules = vec![
        Stage2Rule { msg_type: 7, strategy: 2, ordering_required: true },
        Stage2Rule { msg_type: 1, strategy: 1, ordering_required: false },
        Stage2Rule { msg_type: 7, strategy: 3, ordering_required: true },
    ];
    assert_eq!(msg_type_to_strategy(&rules), [0, 1, 0, 0, 0, 0, 0, 3]);
}

#[test]
fn ring_watch_stops_only_when_every_ring_is_closed() {
    let mut watch = RingWatch::new(2);
    assert!(!watch.done());
    assert_eq!(watch.poll(0, false, true), Poll::Drain);
    assert_eq!(watch.poll(1, true, false), Poll::Skip);
    assert_eq!(watch.poll(0, true, true), Poll::Skip);
    // Seeing the same closed ring again does not count as another closing.
    assert_eq!(watch.poll(0, true, true), Poll::Skip);
    assert_eq!(watch.closed, vec![true, false]);
    assert_eq!(watch.poll(1, false, false), Poll::Drain);
    assert_eq!(watch.poll(1, true, true), Poll::Stop);
    assert!(watch.done());
}

#[test]
fn ring_watch_over_no_rings_is_done() {
    assert!(RingWatch::new(0).done());
}

#[test]
fn readers_give_up_only_after_patience_and_closing() {
    assert!(!gives_up(1000, true));
    assert!(gives_up(1001, true));
    assert!(!gives_up(5000, false));
}

#[test]
fn example_scenario_routes_each_type_to_its_processor_and_strategy() {
    let (senders, receivers) = channels::<Message>(4, 10);
    let rules = vec![rule(3, &[3]), rule(1, &[1]), rule(0, &[0]), rule(2, &[2])];
    let queue = Stage1Queue::new(senders, rules);
    for ty in 0..4 {
        for producer in 0..4 {
            assert!(queue.send(msg(ty, producer, 1)));
        }
    }
    assert_eq!(lengths(&receivers), vec![4, 4, 4, 4]);
    for (ty, r) in receivers.iter().enumerate() {
        assert!(r.try_iter().all(|m| m.ty == ty as u64));
    }

    let (queues, strategies) = channels::<HandledMessage>(3, 10);
    let sender = QueueProcessorSender {
        queues,
        rules: vec![
            Stage2Rule { msg_type: 0, strategy: 0, ordering_required: true },
            Stage2Rule { msg_type: 1, strategy: 1, ordering_required: true },
            Stage2Rule { msg_type: 2, strategy: 2, ordering_required: true },
            Stage2Rule { msg_type: 3, strategy: 0, ordering_required: true },
        ],
    };
    for ty in 0..4 {
        assert!(sender.send(handled(ty)));
    }
    assert_eq!(lengths(&strategies), vec![2, 1, 1]);
}

#[test]
fn processed_messages_of_one_type_meet_in_one_strategy_queue() {
    let (queues, strategies) = channels::<HandledMessage>(2, 10);
    let sender = QueueProcessorSender {
        queues,
        rules: vec![Stage2Rule { msg_type: 5, strategy: 1, ordering_required: true }],
    };
    for processor_id in 0..3 {
        let m = HandledMessage { msg: msg(5, processor_id, 1), processor_id, processing_ts: 0 };
        assert!(sender.send(m));
    }
    assert_eq!(lengths(&strategies), vec![0, 3]);
}
