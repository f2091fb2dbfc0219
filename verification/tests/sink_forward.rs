use chronon_spectra_telemetry::sink_forward::{
    field_i64, field_str, forward_counter_target, forward_event_target, parse_i64_text,
    ChrononMetric, ForwardedEvent, JsonField, JsonNumber,
};

fn num(text: &str, as_i64: Option<i64>) -> JsonField {
    JsonField::Number(JsonNumber { text: text.to_string(), as_i64 })
}

fn obj(entries: Vec<(&str, JsonField)>) -> Vec<(String, JsonField)> {
    entries.into_iter().map(|(k, v)| (k.to_string(), v)).collect()
}

#[test]
fn field_str_and_i64_happy_coercions() {
    let fields = obj(vec![
        ("s", JsonField::Str("hello".to_string())),
        ("b", JsonField::Bool(true)),
        ("n", num("42", Some(42))),
        ("ns", JsonField::Str("7".to_string())),
    ]);
    assert_eq!(field_str(&fields, "s"), "hello");
    assert_eq!(field_str(&fields, "b"), "true");
    assert_eq!(field_str(&fields, "n"), "42");
    assert_eq!(field_i64(&fields, "n"), 42);
    assert_eq!(field_i64(&fields, "ns"), 7);
}

#[test]
fn field_str_and_i64_missing_or_invalid_default_sad() {
    let fields = obj(vec![
        ("arr", JsonField::Array),
        ("obj", JsonField::Object),
        ("bad", JsonField::Str("not-a-number".to_string())),
        ("null", JsonField::Null),
    ]);
    assert_eq!(field_str(&fields, "missing"), "");
    assert_eq!(field_str(&fields, "arr"), "");
    assert_eq!(field_str(&fields, "obj"), "");
    assert_eq!(field_str(&fields, "null"), "");
    assert_eq!(field_i64(&fields, "missing"), 0);
    assert_eq!(field_i64(&fields, "bad"), 0);
    assert_eq!(field_i64(&fields, "arr"), 0);
    assert_eq!(field_i64(&fields, "null"), 0);
}

#[test]
fn parse_matches_std_i64_from_str() {
    for s in [
        "0", "+5", "-0", "007", "-9223372036854775808", "9223372036854775807",
        "9223372036854775808", "-9223372036854775809", "", "+", "-", " 1", "1 ", "1e3", "٣",
        "99999999999999999999999",
    ] {
        assert_eq!(parse_i64_text(s), s.parse::<i64>().ok(), "input {s:?}");
    }
}

#[test]
fn field_coercions_bool_false_floats_and_big_numbers() {
    let fields = obj(vec![
        ("f", JsonField::Bool(false)),
        ("x", num("1.5", None)),
        ("big", num("18446744073709551615", None)),
    ]);
    assert_eq!(field_str(&fields, "f"), "false");
    assert_eq!(field_i64(&fields, "f"), 0);
    assert_eq!(field_str(&fields, "x"), "1.5");
    assert_eq!(field_i64(&fields, "x"), 0);
    assert_eq!(field_str(&fields, "big"), "18446744073709551615");
    assert_eq!(field_i64(&fields, "big"), 0);
}

#[test]
fn forward_targets_known_and_unknown() {
    assert_eq!(forward_counter_target("chronon_runs_started"), Some(ChrononMetric::RunsStarted));
    assert_eq!(forward_counter_target("chronon_run_duration_ms"), Some(ChrononMetric::RunDurationMs));
    assert_eq!(
        forward_counter_target("chronon_partition_assignments"),
        Some(ChrononMetric::PartitionAssignments)
    );
    assert_eq!(forward_counter_target("not_a_chronon_metric"), None);

    let fields = obj(vec![
        ("run_id", JsonField::Str("r".to_string())),
        ("duration_ms", JsonField::Str("3".to_string())),
        ("message", JsonField::Str("m".to_string())),
    ]);
    match forward_event_target("chronon_run_log", &fields) {
        Some(ForwardedEvent::RunLog { run_id, job_name, duration_ms, message, .. }) => {
            assert_eq!(run_id, "r");
            assert_eq!(job_name, "");
            assert_eq!(duration_ms, 3);
            assert_eq!(message, "m");
        }
        other => panic!("unexpected {other:?}"),
    }
    match forward_event_target("chronon_scheduler_log", &obj(vec![("component", JsonField::Array)])) {
        Some(ForwardedEvent::SchedulerLog { component, message }) => {
            assert_eq!(component, "");
            assert_eq!(message, "");
        }
        other => panic!("unexpected {other:?}"),
    }
    assert!(forward_event_target("unknown_table", &[]).is_none());
}
