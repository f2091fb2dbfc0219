use std::hash::{BuildHasher, BuildHasherDefault};

use chronon_spectra_telemetry::labels::{
    bound_job_name_label, deployment_shape_from_vars, error_class_from_labels, hash_label_value,
    sanitize_deployment_shape, ErrorClass,
};

fn std_label(value: &str) -> String {
    let h = BuildHasherDefault::<std::collections::hash_map::DefaultHasher>::default().hash_one(value);
    format!("h{:016x}", h)
}

#[test]
fn bound_job_name_label_hashes_free_form_values_sad() {
    let a = bound_job_name_label("nightly-backup-prod-west");
    let b = bound_job_name_label("nightly-backup-prod-west");
    let c = bound_job_name_label("other-job");
    assert_eq!(a, b);
    assert_ne!(a, c);
    assert!(a.starts_with('h'));
    assert_eq!(a.len(), 17);
    assert_eq!(bound_job_name_label(""), "unknown");
    assert_eq!(bound_job_name_label("unknown"), "unknown");
}

#[test]
fn error_class_from_labels_prefers_explicit_label_happy() {
    let labels = [("error_class", "param"), ("message", "other")];
    assert_eq!(error_class_from_labels(&labels), "param");
}

#[test]
fn error_class_from_labels_classifies_message_sad() {
    let labels = [("message", "parameter error: bad field")];
    assert_eq!(error_class_from_labels(&labels), "param");
    assert_eq!(error_class_from_labels(&[]), "internal");
    let bad = [("error_class", "custom")];
    assert_eq!(error_class_from_labels(&bad), "internal");
}

#[test]
fn error_class_maps_known_messages_happy() {
    assert_eq!(ErrorClass::from_message("Parameter error: bad"), ErrorClass::Param);
    assert_eq!(ErrorClass::from_message("missing field foo"), ErrorClass::Param);
    assert_eq!(ErrorClass::from_message("invalid type: string"), ErrorClass::Param);
    assert_eq!(ErrorClass::from_message("job not found"), ErrorClass::NotFound);
    assert_eq!(
        ErrorClass::from_message("failed to valence build session"),
        ErrorClass::ValenceBuild
    );
    assert_eq!(ErrorClass::Param.as_str(), "param");
    assert_eq!(ErrorClass::NotFound.as_str(), "not_found");
    assert_eq!(ErrorClass::ValenceBuild.as_str(), "valence_build");
    assert_eq!(ErrorClass::Internal.as_str(), "internal");
}

#[test]
fn error_class_unknown_maps_to_internal_sad() {
    assert_eq!(ErrorClass::from_message("something else"), ErrorClass::Internal);
    assert_eq!(ErrorClass::from_message(""), ErrorClass::Internal);
    // valence without build → Internal
    assert_eq!(ErrorClass::from_message("valence missing"), ErrorClass::Internal);
    // build without valence → Internal
    assert_eq!(ErrorClass::from_message("build failed"), ErrorClass::Internal);
}

#[test]
fn deployment_shape_reads_env_happy() {
    assert_eq!(deployment_shape_from_vars(None, None, None), "embedded");
    assert_eq!(
        deployment_shape_from_vars(None, None, Some("http://127.0.0.1:9")),
        "remote_client"
    );
    assert_eq!(deployment_shape_from_vars(None, Some("Worker"), None), "worker");
    assert_eq!(deployment_shape_from_vars(Some("Distributed"), None, None), "distributed");
}

#[test]
fn deployment_shape_unknown_env_maps_to_unknown_sad() {
    assert_eq!(
        deployment_shape_from_vars(Some("tenant-acme-prod-west"), None, None),
        "unknown"
    );
}

#[test]
fn deployment_shape_blank_env_falls_through_sad() {
    assert_eq!(deployment_shape_from_vars(Some("   "), Some(""), Some("  ")), "embedded");
}

#[test]
fn error_class_priority_and_case_folding() {
    // the parameter keywords win over "not found", which wins over valence/build
    assert_eq!(
        ErrorClass::from_message("record not found: missing field x"),
        ErrorClass::Param
    );
    assert_eq!(ErrorClass::from_message("VALENCE BUILD not found"), ErrorClass::NotFound);
    assert_eq!(ErrorClass::from_message("Build of VALENCE session"), ErrorClass::ValenceBuild);
    assert_eq!(ErrorClass::from_message("INVALID TYPE"), ErrorClass::Param);
}

#[test]
fn error_class_label_normalisation_and_fallbacks() {
    assert_eq!(error_class_from_labels(&[("error_class", "  Not_Found ")]), "not_found");
    assert_eq!(error_class_from_labels(&[("error_class", "VALENCE_BUILD")]), "valence_build");
    assert_eq!(error_class_from_labels(&[("error_class", "internal")]), "internal");
    // the first of `error` / `message` is classified
    assert_eq!(
        error_class_from_labels(&[("job", "j"), ("error", "job not found"), ("message", "invalid type")]),
        "not_found"
    );
    // an explicit class wins even when it comes after the message
    assert_eq!(
        error_class_from_labels(&[("message", "invalid type"), ("error_class", "valence_build")]),
        "valence_build"
    );
    assert_eq!(error_class_from_labels(&[("other", "not found")]), "internal");
}

#[test]
fn hashed_label_matches_default_hasher_hex() {
    assert_eq!(hash_label_value("nightly"), std_label("nightly"));
    assert_eq!(bound_job_name_label("  nightly \t"), std_label("nightly"));
    assert_eq!(bound_job_name_label("nightly"), bound_job_name_label("\nnightly  "));
    let l = bound_job_name_label("x");
    assert!(l[1..].chars().all(|c| c.is_ascii_digit() || ('a'..='f').contains(&c)));
    assert_eq!(bound_job_name_label("  unknown  "), "unknown");
    assert_eq!(bound_job_name_label("\u{3000}\u{a0}"), "unknown");
    assert_ne!(bound_job_name_label("Unknown"), "unknown");
}

#[test]
fn deployment_shape_allowlist_and_precedence() {
    for shape in [
        "embedded",
        "remote_client",
        "worker",
        "coordinator",
        "scheduler",
        "distributed",
        "standalone",
    ] {
        assert_eq!(sanitize_deployment_shape(shape), shape);
    }
    assert_eq!(sanitize_deployment_shape("  COORDINATOR "), "coordinator");
    assert_eq!(sanitize_deployment_shape("worker-2"), "unknown");
    assert_eq!(sanitize_deployment_shape(""), "unknown");
    // the explicit shape wins over the role and the remote URL
    assert_eq!(
        deployment_shape_from_vars(Some("standalone"), Some("worker"), Some("http://x")),
        "standalone"
    );
    assert_eq!(
        deployment_shape_from_vars(None, Some("tenant"), Some("http://x")),
        "unknown"
    );
    assert_eq!(deployment_shape_from_vars(Some(" "), Some("Scheduler"), None), "scheduler");
}
