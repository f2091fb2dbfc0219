use chronon_spectra_telemetry::events::{
    executor_error_fields, run_log_fields, sanitize_error_message, scheduler_log_fields,
    FieldValue, MAX_ERROR_MESSAGE_CHARS,
};

fn text<'a>(fields: &'a [(String, FieldValue)], key: &str) -> &'a str {
    match fields.iter().find(|(k, _)| k == key).map(|(_, v)| v) {
        Some(FieldValue::Text(s)) => s.as_str(),
        _ => "",
    }
}

fn int_field(fields: &[(String, FieldValue)], key: &str) -> Option<i64> {
    match fields.iter().find(|(k, _)| k == key).map(|(_, v)| v) {
        Some(FieldValue::Int(i)) => Some(*i),
        _ => None,
    }
}

#[test]
fn run_log_fields_happy_shape() {
    let fields = run_log_fields("r1", "nightly", "script_a", "completed", 42, "ok");
    assert_eq!(text(&fields, "run_id"), "r1");
    assert_eq!(text(&fields, "job_name"), "nightly");
    assert_eq!(text(&fields, "script_name"), "script_a");
    assert_eq!(text(&fields, "status"), "completed");
    assert_eq!(int_field(&fields, "duration_ms"), Some(42));
    assert_eq!(text(&fields, "message"), "ok");
}

#[test]
fn executor_and_scheduler_fields_happy_shape() {
    let exec = executor_error_fields("j", "r", "s", "script_invoke", "boom");
    assert_eq!(text(&exec, "job_name"), "j");
    assert_eq!(text(&exec, "run_id"), "r");
    assert_eq!(text(&exec, "script_name"), "s");
    assert_eq!(text(&exec, "operation"), "script_invoke");
    assert_eq!(text(&exec, "error"), "boom");

    let sched = scheduler_log_fields("scheduler", "tick");
    assert_eq!(text(&sched, "component"), "scheduler");
    assert_eq!(text(&sched, "message"), "tick");
}

#[test]
fn event_field_builders_sanitize_secrets_and_truncate_sad() {
    let secret = format!("failed password={}", "hunter2");
    let exec = executor_error_fields("j", "r", "s", "op", &secret);
    let msg = text(&exec, "error");
    assert!(msg.contains("[redacted]"));
    assert!(!msg.contains("hunter2"));

    let long = "m".repeat(800);
    let run = run_log_fields("r", "j", "s", "failed", 0, &long);
    let sched = scheduler_log_fields("scheduler", &long);
    for fields in [&run, &sched] {
        let t = text(fields, "message");
        assert!(t.chars().count() <= MAX_ERROR_MESSAGE_CHARS + 1);
        assert!(t.ends_with('…'));
    }
}

#[test]
fn sanitize_exact_outputs() {
    assert_eq!(sanitize_error_message("failed password=hunter2"), "failed password=[redacted]");
    assert_eq!(
        sanitize_error_message("PassWord=abc next Password=x"),
        "PassWord=[redacted] next Password=[redacted]"
    );
    assert_eq!(sanitize_error_message("password= tail"), "password=[redacted] tail");
    assert_eq!(sanitize_error_message("no secrets here"), "no secrets here");
    assert_eq!(sanitize_error_message(""), "");
    let exact = "é".repeat(512);
    assert_eq!(sanitize_error_message(&exact), exact);
    let over = "é".repeat(513);
    let clipped = sanitize_error_message(&over);
    assert_eq!(clipped.chars().count(), 513);
    assert_eq!(clipped, format!("{}…", "é".repeat(512)));
}
