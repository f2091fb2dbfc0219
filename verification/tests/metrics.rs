use chronon_spectra_telemetry::events::FieldValue;
use chronon_spectra_telemetry::labels::bound_job_name_label;
use chronon_spectra_telemetry::metrics::{
    counter_delta, label_value, pass_through_fields, plan_counter, plan_event, plan_gauge,
    CounterEmit,
};

fn labels_of(c: &CounterEmit) -> Vec<(&str, &str)> {
    c.labels.iter().map(|(k, v)| (k.as_str(), v.as_str())).collect()
}

fn text_of<'a>(fields: &'a [(String, FieldValue)], key: &str) -> Option<&'a str> {
    fields.iter().find(|(k, _)| k == key).and_then(|(_, v)| match v {
        FieldValue::Text(s) => Some(s.as_str()),
        FieldValue::Int(_) => None,
    })
}

#[test]
fn label_value_and_counter_delta_happy() {
    let labels = [("job_name", "nightly"), ("job", "legacy")];
    assert_eq!(label_value(&labels, "job_name"), Some("nightly"));
    assert_eq!(label_value(&labels, "job"), Some("legacy"));
    assert_eq!(counter_delta(7), 7);
    assert_eq!(counter_delta(0), 0);
}

#[test]
fn label_value_missing_and_counter_delta_overflow_sad() {
    let labels = [("job_name", "nightly")];
    assert_eq!(label_value(&labels, "missing"), None);
    assert_eq!(counter_delta(u64::MAX), i64::MAX);
}

#[test]
fn label_value_first_match_and_delta_edges() {
    assert_eq!(label_value(&[("k", "a"), ("k", "b")], "k"), Some("a"));
    assert_eq!(label_value(&[], "k"), None);
    assert_eq!(counter_delta(i64::MAX as u64), i64::MAX);
    assert_eq!(counter_delta(i64::MAX as u64 + 1), i64::MAX);
}

#[test]
fn plan_counter_remaps_runs_counters() {
    let c = plan_counter(
        "chronon_runs_started",
        &[("job_name", "nightly"), ("job", "ignored")],
        3,
        "worker",
    )
    .unwrap();
    assert_eq!(c.name, "chronon_runs_started");
    assert_eq!(c.delta, 3);
    let nightly = bound_job_name_label("nightly");
    assert_eq!(
        labels_of(&c),
        vec![("job_name", nightly.as_str()), ("deployment_shape", "worker")]
    );

    let legacy = plan_counter("chronon_runs_completed", &[("job", "legacy-label")], 1, "embedded").unwrap();
    let legacy_label = bound_job_name_label("legacy-label");
    assert_eq!(labels_of(&legacy)[0], ("job_name", legacy_label.as_str()));

    let failed = plan_counter(
        "chronon_runs_failed",
        &[("message", "job not found")],
        u64::MAX,
        "embedded",
    )
    .unwrap();
    assert_eq!(failed.delta, i64::MAX);
    assert_eq!(
        labels_of(&failed),
        vec![("job_name", "unknown"), ("deployment_shape", "embedded"), ("error_class", "not_found")]
    );
}

#[test]
fn plan_counter_other_counters_and_unknown_names() {
    let ticks = plan_counter("chronon_scheduler_ticks", &[("job_name", "x")], 1, "scheduler").unwrap();
    assert_eq!(labels_of(&ticks), vec![("deployment_shape", "scheduler")]);
    let remote = plan_counter("chronon_remote_errors", &[], 2, "embedded").unwrap();
    assert_eq!(labels_of(&remote), vec![("operation", "unknown")]);
    let part = plan_counter("chronon_partition_assignments", &[("partition", "p7")], 1, "embedded").unwrap();
    assert_eq!(labels_of(&part), vec![("partition", "p7")]);
    assert!(plan_counter("chronon_custom_counter", &[("k", "v")], 2, "embedded").is_none());
}

#[test]
fn plan_gauge_remaps_known_gauges() {
    let g = plan_gauge("chronon_run_duration_ms", &[("job", "j")]).unwrap();
    let j = bound_job_name_label("j");
    assert_eq!(g.labels, vec![("job_name".to_string(), j)]);
    let p = plan_gauge("chronon_partition_assignments", &[]).unwrap();
    assert_eq!(p.labels, vec![("partition".to_string(), "unknown".to_string())]);
    assert!(plan_gauge("chronon_runs_started", &[]).is_none());
}

#[test]
fn plan_event_executor_error_emits_row_and_failure() {
    let plan = plan_event(
        "chronon_executor_error",
        &[
            ("job_name", "j"),
            ("run_id", "r"),
            ("script_name", "s"),
            ("phase", "valence_build"),
            ("message", "parameter error: bad field"),
        ],
        "worker",
    );
    let event = plan.event.unwrap();
    assert_eq!(event.table, "chronon_executor_error");
    let j = bound_job_name_label("j");
    assert_eq!(text_of(&event.fields, "job_name"), Some(j.as_str()));
    assert_eq!(text_of(&event.fields, "operation"), Some("valence_build"));
    assert_eq!(text_of(&event.fields, "error"), Some("parameter error: bad field"));
    let counter = plan.counter.unwrap();
    assert_eq!(counter.name, "chronon_runs_failed");
    assert_eq!(counter.delta, 1);
    assert_eq!(
        labels_of(&counter),
        vec![("job_name", j.as_str()), ("deployment_shape", "worker"), ("error_class", "param")]
    );

    let defaults = plan_event("chronon_executor_error", &[], "embedded");
    let fields = defaults.event.unwrap().fields;
    assert_eq!(text_of(&fields, "job_name"), Some("unknown"));
    assert_eq!(text_of(&fields, "run_id"), Some(""));
    assert_eq!(text_of(&fields, "operation"), Some("script_invoke"));
    assert_eq!(text_of(&fields, "error"), Some("unknown error"));
    assert_eq!(labels_of(&defaults.counter.unwrap())[2], ("error_class", "internal"));
}

#[test]
fn plan_event_remaps_run_failed_and_scheduler_levels() {
    let plan = plan_event("chronon_run_failed", &[("run_id", "r"), ("job", "j"), ("error", "boom")], "embedded");
    assert!(plan.counter.is_none());
    let event = plan.event.unwrap();
    assert_eq!(event.table, "chronon_run_log");
    assert_eq!(text_of(&event.fields, "job_name"), Some("j"));
    assert_eq!(text_of(&event.fields, "status"), Some("failed"));
    assert_eq!(text_of(&event.fields, "message"), Some("boom"));
    assert!(matches!(
        event.fields.iter().find(|(k, _)| k == "duration_ms").map(|(_, v)| v),
        Some(FieldValue::Int(0))
    ));

    for level in ["chronon_scheduler_warn", "chronon_scheduler_info", "chronon_scheduler_error"] {
        let e = plan_event(level, &[("message", "lag")], "embedded").event.unwrap();
        assert_eq!(e.table, "chronon_scheduler_log");
        assert_eq!(text_of(&e.fields, "component"), Some("scheduler"));
        assert_eq!(text_of(&e.fields, "message"), Some("lag"));
    }
    let none = plan_event("totally_unknown_schema", &[("x", "y")], "embedded");
    assert!(none.event.is_none() && none.counter.is_none());
}

#[test]
fn pass_through_later_keys_override() {
    let fields = pass_through_fields(&[("a", "1"), ("b", "2"), ("a", "3")]);
    assert_eq!(fields.len(), 2);
    assert_eq!(text_of(&fields, "a"), Some("3"));
    assert_eq!(text_of(&fields, "b"), Some("2"));
    let plan = plan_event("chronon_scheduler_log", &[("component", "c"), ("component", "d")], "embedded");
    let event = plan.event.unwrap();
    assert_eq!(event.table, "chronon_scheduler_log");
    assert_eq!(event.fields.len(), 1);
    assert_eq!(text_of(&event.fields, "component"), Some("d"));
    assert!(plan_event("chronon_run_log", &[], "embedded").event.unwrap().fields.is_empty());
}
