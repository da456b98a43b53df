use hft::config::{Processors, Strategies, MSG_TYPE_PREFIX, STRATEGY_PREFIX};
use hft::keys::key_id;

fn entries(pairs: &[(&str, u64)]) -> Vec<(String, u64)> {
    pairs.iter().map(|(k, v)| (k.to_string(), *v)).collect()
}

#[test]
fn key_id_reads_the_number_after_the_prefix() {
    assert_eq!(key_id("msg_type_3", MSG_TYPE_PREFIX), Some(3));
    assert_eq!(key_id("strategy_12", STRATEGY_PREFIX), Some(12));
    assert_eq!(key_id("msg_type_007", MSG_TYPE_PREFIX), Some(7));
}

#[test]
fn key_id_strips_every_leading_copy_of_the_prefix() {
    assert_eq!(key_id("msg_type_msg_type_5", MSG_TYPE_PREFIX), Some(5));
}

#[test]
fn key_id_accepts_what_u64_parsing_accepts() {
    assert_eq!(key_id("+4", MSG_TYPE_PREFIX), Some(4));
    assert_eq!(key_id("42", MSG_TYPE_PREFIX), Some(42));
    assert_eq!(key_id("msg_type_18446744073709551615", MSG_TYPE_PREFIX), Some(u64::MAX));
    for text in ["msg_type_18446744073709551615", "msg_type_0", "msg_type_+9", "9x"] {
        let rest = text.trim_start_matches(MSG_TYPE_PREFIX);
        assert_eq!(key_id(text, MSG_TYPE_PREFIX), rest.parse::<u64>().ok());
    }
    assert_eq!(key_id("5", ""), Some(5));
    assert_eq!(key_id("5", ""), "5".trim_start_matches("").parse::<u64>().ok());
}

#[test]
fn key_id_rejects_what_is_no_number() {
    assert_eq!(key_id("msg_type_", MSG_TYPE_PREFIX), None);
    assert_eq!(key_id("msg_type_+", MSG_TYPE_PREFIX), None);
    assert_eq!(key_id("msg_type_-1", MSG_TYPE_PREFIX), None);
    assert_eq!(key_id("msg_type_1a", MSG_TYPE_PREFIX), None);
    assert_eq!(key_id("msg_type_ 1", MSG_TYPE_PREFIX), None);
    assert_eq!(key_id("msg_type_18446744073709551616", MSG_TYPE_PREFIX), None);
    assert_eq!(key_id("strategy_1", MSG_TYPE_PREFIX), None);
}

#[test]
fn processors_parse_sorts_by_message_type() {
    let processors = Processors {
        count: 4,
        processing_times_ns: entries(&[("msg_type_2", 300), ("msg_type_0", 100), ("msg_type_1", 200)]),
    };
    assert_eq!(processors.parse(), vec![(0, 100), (1, 200), (2, 300)]);
}

#[test]
fn processors_parse_of_nothing_is_empty() {
    let processors = Processors { count: 0, processing_times_ns: Vec::new() };
    assert!(processors.parse().is_empty());
}

#[test]
fn strategies_parse_enumerates_in_id_order() {
    let strategies = Strategies {
        count: 3,
        processing_times_ns: entries(&[("strategy_1", 50), ("strategy_2", 70), ("strategy_0", 10)]),
    };
    assert_eq!(strategies.parse(), vec![(0, (0, 10)), (1, (1, 50)), (2, (2, 70))]);
}

#[test]
fn strategies_parse_positions_differ_from_ids_when_ids_skip() {
    let strategies = Strategies {
        count: 2,
        processing_times_ns: entries(&[("strategy_5", 1), ("strategy_3", 2)]),
    };
    assert_eq!(strategies.parse(), vec![(0, (3, 2)), (1, (5, 1))]);
}

#[test]
fn strategies_count_must_match_the_times_given() {
    let mut strategies = Strategies {
        count: 2,
        processing_times_ns: entries(&[("strategy_0", 1), ("strategy_1", 2)]),
    };
    assert!(strategies.count_matches());
    strategies.count = 3;
    assert!(!strategies.count_matches());
}

#[test]
fn processors_parse_does_not_depend_on_entry_order() {
    let a = entries(&[("msg_type_2", 300), ("msg_type_0", 100), ("msg_type_1", 200), ("msg_type_7", 1)]);
    let mut b = a.clone();
    b.reverse();
    let pa = Processors { count: 4, processing_times_ns: a };
    let pb = Processors { count: 4, processing_times_ns: b };
    assert_eq!(pa.parse(), pb.parse());
}
