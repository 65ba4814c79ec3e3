use screeps_ai::common::id_key::{format_decimal, format_key, parse_key};
use screeps_ai::actor::spawn_actor::SpawnId;
use screeps_ai::task::task_core::{NoTask, TaskId, TaskIdParse};

#[test]
fn format_key_pads_to_width() {
    assert_eq!(format_key('T', 4, 7), "T0007");
    assert_eq!(format_key('S', 3, 12), "S012");
    assert_eq!(format_key('T', 4, 0), "T0000");
}

#[test]
fn format_key_keeps_wide_numbers_whole() {
    assert_eq!(format_key('T', 4, 12345), "T12345");
    assert_eq!(format_key('S', 3, 999), "S999");
}

#[test]
fn format_decimal_prints_numbers() {
    assert_eq!(format_decimal(0), "0");
    assert_eq!(format_decimal(4096), "4096");
    assert_eq!(format_decimal(usize::MAX), usize::MAX.to_string());
}

#[test]
fn parse_key_reads_padded_and_signed_numbers() {
    assert_eq!(parse_key('T', "T0007"), Some(7));
    assert_eq!(parse_key('T', "T12345"), Some(12345));
    assert_eq!(parse_key('T', "T+5"), Some(5));
    assert_eq!(parse_key('S', "S001"), Some(1));
}

#[test]
fn parse_key_rejects_other_forms() {
    assert_eq!(parse_key('T', ""), None);
    assert_eq!(parse_key('T', "T"), None);
    assert_eq!(parse_key('T', "T+"), None);
    assert_eq!(parse_key('T', "T-1"), None);
    assert_eq!(parse_key('T', "X0007"), None);
    assert_eq!(parse_key('T', "T12a"), None);
    assert_eq!(parse_key('T', "S0001"), None);
    assert_eq!(parse_key('T', "T99999999999999999999999999"), None);
}

#[test]
fn key_roundtrip_on_examples() {
    for n in [0usize, 1, 9, 10, 999, 1000, 123456, usize::MAX] {
        assert_eq!(parse_key('T', &format_key('T', 4, n)), Some(n));
        assert_eq!(parse_key('S', &format_key('S', 3, n)), Some(n));
    }
}

#[test]
fn task_id_keys_and_text() {
    assert_eq!(TaskId(7).to_key(), "T0007");
    assert_eq!(TaskId::parse_key("T0007"), Some(TaskId(7)));
    assert_eq!(TaskId::parse_key("S0007"), None);
    assert_eq!(TaskId(42).to_text(), "42");
    assert_eq!(TaskId(41).next(), TaskId(42));
}

#[test]
fn task_id_conversions() {
    assert_eq!(TaskId::from(5usize), TaskId(5));
    assert_eq!(usize::from(TaskId(5)), 5);
    assert_eq!(TaskId::from(TaskIdParse { id: 9 }), TaskId(9));
}

#[test]
fn spawn_id_keys() {
    assert_eq!(SpawnId(1).to_key(), "S001");
    assert_eq!(SpawnId::parse_key("S001"), Some(SpawnId(1)));
    assert_eq!(SpawnId::parse_key("Spawn1"), None);
}

#[test]
fn no_task_text() {
    assert_eq!(NoTask {}.to_text(), "NoTask");
}
