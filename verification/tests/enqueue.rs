use vigilcut::enqueue::{
    job_queued, joined_existing_job, queue_cost_kind, refused_by_gate, rejected_need, rejection_metric,
    second_job_check,
};
use vigilcut::error::AppError;
use vigilcut::generation::CostKind;
use vigilcut::needs::{NeedCoverage, VisualNeed};

#[test]
fn queue_steps() {
    assert_eq!(queue_cost_kind("mock", false), CostKind::Local);
    assert_eq!(queue_cost_kind("mock", true), CostKind::Local);
    assert_eq!(queue_cost_kind("openai", true), CostKind::Paid);
    assert_eq!(queue_cost_kind("omniroute", false), CostKind::FreeConfigured);

    let mut n = VisualNeed::from_label("p", "x", "t0");
    refused_by_gate(&mut n, "presupuesto diario de pago es 0", "t1");
    assert_eq!(n.coverage, NeedCoverage::Skipped);
    assert_eq!(n.match_reasons.last().map(|s| s.as_str()), Some("policy:presupuesto diario de pago es 0"));
    assert_eq!(n.updated_at, "t1");

    let mut n = VisualNeed::from_label("p", "x", "t0");
    joined_existing_job(&mut n, "job-1", "succeeded");
    assert_eq!(n.coverage, NeedCoverage::Covered);
    assert_eq!(n.generation_job_id.as_deref(), Some("job-1"));
    let mut n = VisualNeed::from_label("p", "x", "t0");
    joined_existing_job(&mut n, "job-2", "running");
    assert_eq!(n.coverage, NeedCoverage::Generating);
    let mut n = VisualNeed::from_label("p", "x", "t0");
    let before = n.coverage;
    joined_existing_job(&mut n, "job-3", "failed");
    assert_eq!(n.coverage, before);

    assert!(second_job_check(0).is_ok());
    match second_job_check(1) {
        Err(AppError::Invalid(m)) => assert_eq!(m, "Ya hay una generación en curso para esta necesidad."),
        _ => panic!("a second job is refused"),
    }

    let mut n = VisualNeed::from_label("p", "x", "t0");
    job_queued(&mut n, "job-4", "t2");
    assert_eq!(n.coverage, NeedCoverage::Generating);
    assert_eq!(n.generation_job_id.as_deref(), Some("job-4"));
    assert_eq!(n.updated_at, "t2");
}

#[test]
fn reject_steps() {
    let mut n = VisualNeed::from_label("p", "x", "t0");
    job_queued(&mut n, "job-4", "t2");
    rejected_need(&mut n, "t3");
    assert_eq!(n.coverage, NeedCoverage::Uncovered);
    assert_eq!(n.updated_at, "t3");
    assert_eq!(rejection_metric("daily_feed"), Some("rejected"));
    assert_eq!(rejection_metric("video_need"), None);
}
