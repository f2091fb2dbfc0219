use chronon_spectra_telemetry::metrics::{plan_counter, plan_event, plan_gauge};
use chronon_spectra_telemetry::sink_forward::{
    forward_counter_target, forward_event_target, ForwardedEvent, JsonField,
};

fn s(v: &str) -> JsonField {
    JsonField::Str(v.to_string())
}

fn obj(entries: Vec<(&str, JsonField)>) -> Vec<(String, JsonField)> {
    entries.into_iter().map(|(k, v)| (k.to_string(), v)).collect()
}

#[test]
fn spectra_sink_counter_gauge_event_happy() {
    let shape = "embedded";
    assert!(plan_counter(
        "chronon_runs_started",
        &[("job_name", "nightly"), ("job", "ignored-when-job_name-present")],
        1,
        shape,
    )
    .is_some());
    // legacy `job` label remaps when `job_name` is absent
    assert!(plan_counter("chronon_runs_completed", &[("job", "legacy-label")], 1, shape).is_some());
    assert!(plan_counter("chronon_runs_failed", &[("job_name", "nightly")], 1, shape).is_some());
    assert!(plan_counter("chronon_scheduler_ticks", &[], 1, shape).is_some());
    assert!(plan_gauge("chronon_run_duration_ms", &[("job_name", "nightly")]).is_some());
    let exec = plan_event(
        "chronon_executor_error",
        &[
            ("job_name", "j"),
            ("run_id", "r"),
            ("script_name", "s"),
            ("phase", "script_invoke"),
            ("message", "parameter error: bad field"),
        ],
        shape,
    );
    assert!(exec.event.is_some() && exec.counter.is_some());
    assert!(plan_event("chronon_run_failed", &[("run_id", "r"), ("job", "j"), ("error", "boom")], shape)
        .event
        .is_some());
    assert!(plan_event("chronon_scheduler_warn", &[("component", "scheduler"), ("message", "lag")], shape)
        .event
        .is_some());
    assert!(plan_event("chronon_scheduler_info", &[("component", "scheduler"), ("message", "ok")], shape)
        .event
        .is_some());
    assert!(plan_event(
        "chronon_run_log",
        &[
            ("run_id", "r"),
            ("job_name", "j"),
            ("script_name", "s"),
            ("status", "completed"),
            ("message", "done"),
        ],
        shape,
    )
    .event
    .is_some());
}

#[test]
fn spectra_sink_unknown_and_empty_fields_accepted_sad() {
    let shape = "embedded";
    // unknown counter / schema names are dropped
    assert!(plan_counter("chronon_custom_counter", &[("k", "v")], 2, shape).is_none());
    assert!(plan_event("chronon_run_log", &[], shape).event.unwrap().fields.is_empty());
    let unknown = plan_event("totally_unknown_schema", &[("x", "y")], shape);
    assert!(unknown.event.is_none() && unknown.counter.is_none());
    // missing job labels resolve to "unknown" inside remappers
    let started = plan_counter("chronon_runs_started", &[], 1, shape).unwrap();
    assert_eq!(started.labels[0], ("job_name".to_string(), "unknown".to_string()));
    let exec = plan_event("chronon_executor_error", &[("message", "unclassified failure")], shape);
    assert_eq!(exec.counter.unwrap().labels[2].1, "internal");
}

#[test]
fn sink_forward_known_metrics_and_events_happy() {
    for name in [
        "chronon_runs_started",
        "chronon_runs_completed",
        "chronon_runs_failed",
        "chronon_scheduler_ticks",
        "chronon_remote_errors",
        "chronon_run_duration_ms",
        "chronon_partition_assignments",
    ] {
        assert!(forward_counter_target(name).is_some(), "{name}");
    }

    let exec = obj(vec![
        ("job_name", s("j")),
        ("run_id", s("r")),
        ("script_name", s("s")),
        ("operation", s("script_invoke")),
        ("error", s("e")),
    ]);
    match forward_event_target("chronon_executor_error", &exec) {
        Some(ForwardedEvent::ExecutorError { job_name, run_id, script_name, operation, error }) => {
            assert_eq!(
                (job_name.as_str(), run_id.as_str(), script_name.as_str(), operation.as_str(), error.as_str()),
                ("j", "r", "s", "script_invoke", "e")
            );
        }
        other => panic!("unexpected {other:?}"),
    }
    let run = obj(vec![
        ("run_id", s("r")),
        ("job_name", s("j")),
        ("script_name", s("s")),
        ("status", s("failed")),
        ("duration_ms", s("3")),
        ("message", s("m")),
    ]);
    match forward_event_target("chronon_run_log", &run) {
        Some(ForwardedEvent::RunLog { status, duration_ms, .. }) => {
            assert_eq!(status, "failed");
            assert_eq!(duration_ms, 3);
        }
        other => panic!("unexpected {other:?}"),
    }
    let sched = obj(vec![("component", s("scheduler")), ("message", s("tick"))]);
    assert!(matches!(
        forward_event_target("chronon_scheduler_log", &sched),
        Some(ForwardedEvent::SchedulerLog { .. })
    ));
}

#[test]
fn sink_forward_unknown_and_missing_fields_ignored_sad() {
    // unknown metric / table names are no-ops
    assert!(forward_counter_target("not_a_chronon_metric").is_none());
    assert!(forward_event_target("unknown_table", &[]).is_none());

    // missing fields coerce to empty string / 0
    match forward_event_target("chronon_run_log", &[]) {
        Some(ForwardedEvent::RunLog { run_id, duration_ms, message, .. }) => {
            assert_eq!(run_id, "");
            assert_eq!(duration_ms, 0);
            assert_eq!(message, "");
        }
        other => panic!("unexpected {other:?}"),
    }
    match forward_event_target("chronon_executor_error", &obj(vec![("job_name", JsonField::Null)])) {
        Some(ForwardedEvent::ExecutorError { job_name, .. }) => assert_eq!(job_name, ""),
        other => panic!("unexpected {other:?}"),
    }
    match forward_event_target(
        "chronon_scheduler_log",
        &obj(vec![("component", JsonField::Array), ("message", JsonField::Object)]),
    ) {
        Some(ForwardedEvent::SchedulerLog { component, message }) => {
            assert_eq!(component, "");
            assert_eq!(message, "");
        }
        other => panic!("unexpected {other:?}"),
    }
}
