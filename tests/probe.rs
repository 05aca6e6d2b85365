use username_probe::probe::{
    is_success_status, plan_probe, probe_outcome, ProbePlan, ProbeResult, MAX_NAME_LEN,
    MIN_NAME_LEN,
};

#[test]
fn too_short_is_unavailable_without_query() {
    assert_eq!(plan_probe("ab"), ProbePlan::Decided(ProbeResult::Unavailable));
    assert_eq!(plan_probe(""), ProbePlan::Decided(ProbeResult::Unavailable));
}

#[test]
fn too_long_is_unavailable_without_query() {
    let long = "x".repeat(20);
    assert_eq!(plan_probe(&long), ProbePlan::Decided(ProbeResult::Unavailable));
    let seventeen = "y".repeat(17);
    assert_eq!(plan_probe(&seventeen), ProbePlan::Decided(ProbeResult::Unavailable));
}

#[test]
fn length_bounds_are_inclusive() {
    assert_eq!(MIN_NAME_LEN, 3);
    assert_eq!(MAX_NAME_LEN, 16);
    assert_eq!(plan_probe("abc"), ProbePlan::Query("abc".to_string()));
    let sixteen = "z".repeat(16);
    assert_eq!(plan_probe(&sixteen), ProbePlan::Query(sixteen.clone()));
}

#[test]
fn surrounding_whitespace_is_trimmed() {
    assert_eq!(plan_probe("  validname\t\n"), ProbePlan::Query("validname".to_string()));
    // Padding alone would push the raw text past the limit.
    let padded = format!("   {}   ", "q".repeat(16));
    assert_eq!(plan_probe(&padded), ProbePlan::Query("q".repeat(16)));
    // Whitespace does not count towards the minimum.
    assert_eq!(plan_probe("  ab  "), ProbePlan::Decided(ProbeResult::Unavailable));
}

#[test]
fn length_counts_characters() {
    // Three characters, six bytes.
    assert_eq!(plan_probe("\u{e9}\u{e9}\u{e9}"), ProbePlan::Query("\u{e9}\u{e9}\u{e9}".to_string()));
    // Sixteen characters, thirty-two bytes.
    let wide = "\u{e9}".repeat(16);
    assert_eq!(plan_probe(&wide), ProbePlan::Query(wide.clone()));
}

#[test]
fn success_status_is_the_2xx_class() {
    assert!(is_success_status(200));
    assert!(is_success_status(204));
    assert!(is_success_status(299));
    assert!(!is_success_status(199));
    assert!(!is_success_status(300));
    assert!(!is_success_status(404));
    assert!(!is_success_status(429));
    assert!(!is_success_status(500));
}

#[test]
fn response_classification() {
    assert_eq!(probe_outcome(Ok(200)), ProbeResult::Available);
    assert_eq!(probe_outcome(Ok(201)), ProbeResult::Available);
    assert_eq!(probe_outcome(Ok(302)), ProbeResult::Unavailable);
    assert_eq!(probe_outcome(Ok(404)), ProbeResult::Unavailable);
    assert_eq!(probe_outcome(Ok(500)), ProbeResult::Unavailable);
    assert_eq!(
        probe_outcome(Err("connection reset".to_string())),
        ProbeResult::Failed("connection reset".to_string())
    );
}

#[test]
fn only_available_counts() {
    assert!(ProbeResult::Available.is_available());
    assert!(!ProbeResult::Unavailable.is_available());
    assert!(!ProbeResult::Failed("timeout".to_string()).is_available());
}
