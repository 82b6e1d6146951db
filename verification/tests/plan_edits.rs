use vigilcut::compose::VisualSession;
use vigilcut::error::AppError;
use vigilcut::needs::{NeedCoverage, VisualNeed};
use vigilcut::plan_edits::{add_protected_range, remove_placement, remove_protected_range, use_asset_for_need};
use vigilcut::visual::PlacementMode;

fn need() -> VisualNeed {
    let mut n = VisualNeed::from_label("proj-use", "escena test", "t0");
    n.terms = vec!["escena".to_string()];
    n.output_start = Some(2_000);
    n.output_end = Some(6_000);
    n
}

#[test]
fn use_asset_for_need_single_placement() {
    let mut session = VisualSession::new();
    let mut n = need();
    let i1 = use_asset_for_need(&mut session, "fp1", "v.mp4", &mut n, "asset-1", 30_000, "t1");
    assert_eq!(session.plan.as_ref().unwrap().placements.len(), 1, "first use must create one placement");
    assert_eq!(i1, 0);
    let i2 = use_asset_for_need(&mut session, "fp1", "v.mp4", &mut n, "asset-1", 30_000, "t2");
    assert_eq!(session.plan.as_ref().unwrap().placements.len(), 1, "second use must reuse the placement");
    assert_eq!(i2, 0);
    let p = &session.plan.as_ref().unwrap().placements[0];
    assert_eq!(p.asset_id, "asset-1");
    assert_eq!((p.output_start, p.output_end), (2_000, 6_000));
    assert_eq!(p.related_text.as_deref(), Some(format!("need:{}", n.id).as_str()));
    assert_eq!(p.mode, PlacementMode::Fullframe);
    assert!(p.manual_override);
    assert_eq!(n.coverage, NeedCoverage::Covered);
    assert_eq!(n.matched_asset_id.as_deref(), Some("asset-1"));
    assert_eq!(n.match_reasons, vec!["user_selected".to_string()]);
    assert_eq!(session.edl_fp.as_deref(), Some("fp1"));
}

#[test]
fn need_interval_defaults() {
    let mut session = VisualSession::new();
    let mut n = VisualNeed::from_label("p", "sin tiempo", "t0");
    use_asset_for_need(&mut session, "fp", "v.mp4", &mut n, "a", 30_000, "t1");
    let p = &session.plan.as_ref().unwrap().placements[0];
    // no times: from 0 for the need's approximate duration (5 s)
    assert_eq!((p.output_start, p.output_end), (0, 5_000));
    let mut late = VisualNeed::from_label("p", "tarde", "t0");
    late.output_start = Some(29_900);
    late.output_end = Some(29_950);
    use_asset_for_need(&mut session, "fp", "v.mp4", &mut late, "b", 30_000, "t1");
    let q = &session.plan.as_ref().unwrap().placements[1];
    assert_eq!((q.output_start, q.output_end), (29_900, 30_000));
    // another cut resets the plan
    let mut again = need();
    use_asset_for_need(&mut session, "fp2", "v.mp4", &mut again, "c", 30_000, "t1");
    assert_eq!(session.plan.as_ref().unwrap().placements.len(), 1);
}

#[test]
fn protect_and_unprotect() {
    let mut session = VisualSession::new();
    let mut n = need();
    use_asset_for_need(&mut session, "fp1", "v.mp4", &mut n, "asset-1", 30_000, "t1");
    let returned = add_protected_range(&mut session, "fp1", "v.mp4", 5_000, 8_000, None);
    assert_eq!(returned.protected_ranges.len(), 1);
    assert_eq!(returned.placements[0].status, "blocked_protected");
    {
        let plan = session.plan.as_ref().unwrap();
        assert_eq!(plan.protected_ranges.len(), 1);
        assert_eq!(plan.protected_ranges[0].reason, "Sin B-roll");
        assert_eq!(plan.placements[0].status, "blocked_protected");
    }
    add_protected_range(&mut session, "fp1", "v.mp4", 20_000, 21_000, Some("cara".to_string()));
    let far = session.plan.as_ref().unwrap().protected_ranges[1].id.clone();
    let near = session.plan.as_ref().unwrap().protected_ranges[0].id.clone();
    assert!(remove_protected_range(&mut session, &far).is_ok());
    assert_eq!(session.plan.as_ref().unwrap().placements[0].status, "blocked_protected");
    let lifted = remove_protected_range(&mut session, &near).unwrap();
    assert!(lifted.protected_ranges.is_empty());
    assert_eq!(lifted.placements[0].status, "active");
    assert_eq!(session.plan.as_ref().unwrap().placements[0].status, "active");
    assert!(matches!(remove_protected_range(&mut session, &near), Err(AppError::NotFound(_))));
}

#[test]
fn remove_placement_by_id() {
    let mut empty = VisualSession::new();
    match remove_placement(&mut empty, "x") {
        Err(AppError::Invalid(m)) => assert_eq!(m, "No hay VisualPlan en sesión."),
        _ => panic!("no plan"),
    }
    let mut session = VisualSession::new();
    let mut n = need();
    use_asset_for_need(&mut session, "fp1", "v.mp4", &mut n, "asset-1", 30_000, "t1");
    let id = session.plan.as_ref().unwrap().placements[0].id.clone();
    assert!(matches!(remove_placement(&mut session, "nope"), Err(AppError::NotFound(_))));
    let after = remove_placement(&mut session, &id).unwrap();
    assert!(after.placements.is_empty());
    assert_eq!(after.id, session.plan.as_ref().unwrap().id);
    assert!(session.plan.as_ref().unwrap().placements.is_empty());
}
