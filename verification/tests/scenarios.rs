use vigilcut::concepts::seed_economy_theme;
use vigilcut::error::AppError;
use vigilcut::generation::{can_enqueue_generation, CostGate, CostPolicy};
use vigilcut::needs::{merge_need, NeedCoverage, VisualNeed};
use vigilcut::safe_paths::{first_free_number, numbered_output_name, validate_export_output, validate_export_request, ExportPaths};

#[test]
fn rejects_same_input_output() {
    let same = ExportPaths { input_exists: true, input_is_file: true, input_len: Some(22), same_file: true };
    match validate_export_request(&same, "a.mp4", "") {
        Err(e) => {
            let m = e.message();
            assert!(m.contains("mismo archivo") || m.contains("original"));
        }
        Ok(()) => panic!("same input and output must be refused"),
    }
}

#[test]
fn unique_path_avoids_collision() {
    // "out.mp4" exists; "out-2.mp4" does not
    let taken = vec![true, false];
    let n = first_free_number(&taken).unwrap();
    let b = numbered_output_name("out", n, "mp4");
    assert_ne!(b, "out.mp4");
    assert_eq!(b, "out-3.mp4");
    assert_eq!(first_free_number(&vec![false]), Some(2));
}

#[test]
fn rejects_tiny_export() {
    let r = validate_export_output(true, 2, 10_000, "tiny.mp4");
    match r {
        Err(AppError::Ffmpeg(m)) => assert!(m.contains("demasiado pequeño: 2 bytes")),
        _ => panic!("a two-byte export must be refused"),
    }
}

#[test]
fn merge_preserves_covered_need() {
    let mut existing = VisualNeed::from_label("pk", "inflacion", "t0");
    existing.coverage = NeedCoverage::Covered;
    existing.matched_asset_id = Some("asset-1".to_string());
    existing.generation_job_id = Some("job-1".to_string());
    let mut fresh = VisualNeed::from_label("pk", "inflacion", "t1");
    fresh.priority = 99;
    // a protected need is kept as stored
    assert!(merge_need(&existing, fresh, "t1").is_none());

    let plain = VisualNeed::from_label("pk", "inflacion", "t0");
    let mut again = VisualNeed::from_label("pk", "inflacion", "t1");
    again.priority = 99;
    let merged = merge_need(&plain, again, "t2").unwrap();
    assert_eq!(merged.id, plain.id);
    assert_eq!(merged.created_at, "t0");
    assert_eq!(merged.updated_at, "t2");
    assert_eq!(merged.priority, 99);
    assert_eq!(merged.coverage, NeedCoverage::Uncovered);
}

#[test]
fn seed_and_dedupe() {
    let a = seed_economy_theme();
    let b = seed_economy_theme();
    assert_eq!(a.len(), b.len());
    assert_eq!(a[0].title, b[0].title);
    for (x, y) in a.iter().zip(b.iter()) {
        assert_eq!(x.title, y.title);
        assert_eq!(x.priority, y.priority);
    }
}

#[test]
fn paid_blocked_by_default() {
    let policy = CostPolicy::default_policy();
    assert!(!policy.paid_providers_enabled);
    let g = can_enqueue_generation(&policy, true, false, 0, 0);
    assert!(matches!(g, CostGate::Deny { .. }));
    let free = can_enqueue_generation(&policy, false, false, 0, 0);
    assert!(matches!(free, CostGate::Allow { free: true }));
}
